//! Building the route table from scanned configuration files, resolving an
//! inbound path to the first matching route, and dispatching a request
//! against a route's configuration: method check, required-header check, and
//! rendering of the response descriptor, with the exact diagnostic texts the
//! failures carry.

use vstd::prelude::*;
use vstd::string::StringExecFns;
use crate::strutil::chars_of;
use crate::strutil::push_str_chars;
use crate::strutil::string_from_chars;
use crate::kvlist::find_key;
use crate::app_state::FileTypeModel;
use crate::app_state::RequestHandlingConfig;
use crate::app_state::ResponseFileType;
use crate::app_state::RouteTable;
use crate::cache::Cache;
use crate::file_reader::ConfigFormat;
use crate::file_reader::ScanEntry;
use crate::file_reader::ScanEntryModel;
use crate::json::to_json_string;
use crate::kvlist::has_key;
use crate::request::MethodConstraint;
use crate::request::MethodModel;
use crate::request::RouteConfigModel;
use crate::request::RouteConfiguration;
use crate::request::ResponseModel;
use crate::request::clone_pairs;
use crate::request::pairs_view;
use crate::rex::Matcher;
use crate::rex::normalize;
use crate::rex::normalize_path;
use crate::rex::route_matches;

verus! {

/// The locator a scan entry contributes: its format and path.
pub open spec fn locator_of(e: ScanEntryModel) -> FileTypeModel {
    match e.format {
        ConfigFormat::Json => FileTypeModel::Json(e.path),
        ConfigFormat::Yaml => FileTypeModel::Yaml(e.path),
    }
}

/// The mapping a scan of these entries denotes: each loaded entry maps its
/// normalized declared pattern to that entry's locator, in order, last wins;
/// entries that failed to load contribute nothing.
pub open spec fn route_map_of(entries: Seq<ScanEntryModel>) -> Map<Seq<char>, FileTypeModel>
    decreases entries.len(),
{
    if entries.len() == 0 {
        Map::empty()
    } else {
        let m = route_map_of(entries.drop_last());
        let e = entries.last();
        match e.url {
            Some(u) => m.insert(normalize(u), locator_of(e)),
            None => m,
        }
    }
}

/// Records a configuration read from a JSON file: its declared pattern,
/// normalized, maps to a JSON locator for `path`.
pub fn insert_json_request_into_map(result: RouteConfiguration, path: String, map: &mut RouteTable)
    requires
        old(map).wf(),
    ensures
        final(map).wf(),
        final(map).map_view() == old(map).map_view().insert(
            normalize(result.url@),
            FileTypeModel::Json(path@),
        ),
{
    let url = normalize_path(result.url.as_str());
    let config = RequestHandlingConfig::new(ResponseFileType::Json(path));
    map.insert(url, config);
}

/// Records a configuration read from a YAML file: its declared pattern,
/// normalized, maps to a YAML locator for `path`.
pub fn insert_yaml_request_into_map(result: RouteConfiguration, path: String, map: &mut RouteTable)
    requires
        old(map).wf(),
    ensures
        final(map).wf(),
        final(map).map_view() == old(map).map_view().insert(
            normalize(result.url@),
            FileTypeModel::Yaml(path@),
        ),
{
    let url = normalize_path(result.url.as_str());
    let config = RequestHandlingConfig::new(ResponseFileType::Yaml(path));
    map.insert(url, config);
}

/// Builds the route table from the files a directory scan discovered: each
/// successfully loaded file contributes its normalized declared pattern,
/// mapped to that file's locator; files that failed to load are skipped; on
/// a pattern declared twice, the last processed file wins.
pub fn create_route_map(entries: Vec<ScanEntry>) -> (t: RouteTable)
    ensures
        t.wf(),
        t.map_view() == route_map_of(entries@.map_values(|e: ScanEntry| e.model())),
{
    let ghost models = entries@.map_values(|e: ScanEntry| e.model());
    let mut t = RouteTable::new();
    let n: usize = entries.len();
    let mut i: usize = 0;
    proof {
        assert(models.take(0) =~= Seq::<ScanEntryModel>::empty());
    }
    while i < n
        invariant
            n == entries@.len(),
            entries@.map_values(|e: ScanEntry| e.model()) == models,
            i <= n,
            t.wf(),
            t.map_view() == route_map_of(models.take(i as int)),
        decreases n - i,
    {
        proof {
            assert(models[i as int] == entries@[i as int].model());
            assert(models.take(i + 1).drop_last() =~= models.take(i as int));
            assert(models.take(i + 1).last() == models[i as int]);
        }
        let entry = &entries[i];
        match &entry.config {
            Some(config) => {
                let url = normalize_path(config.url.as_str());
                let path_copy = entry.path.clone();
                match entry.format {
                    ConfigFormat::Json => {
                        let config = RequestHandlingConfig::new(ResponseFileType::Json(path_copy));
                        t.insert(url, config);
                    },
                    ConfigFormat::Yaml => {
                        let config = RequestHandlingConfig::new(ResponseFileType::Yaml(path_copy));
                        t.insert(url, config);
                    },
                }
            },
            None => {},
        }
        i = i + 1;
    }
    proof {
        assert(models.take(n as int) =~= models);
    }
    t
}

/// Scanning is a function of what the directory held: two scans over equal
/// contents denote the identical mapping, so rescanning an unchanged
/// directory leaves the route table as it was.
pub proof fn lemma_scan_idempotent(a: Seq<ScanEntryModel>, b: Seq<ScanEntryModel>)
    requires
        a == b,
    ensures
        route_map_of(a) == route_map_of(b),
{
}

/// A scan of one loaded file whose declared pattern is `u` denotes exactly
/// the one association: the normalized `u`, mapped to that file's locator.
pub proof fn lemma_scan_single(e: ScanEntryModel, u: Seq<char>)
    requires
        e.url == Some(u),
    ensures
        route_map_of(seq![e]) == Map::<Seq<char>, FileTypeModel>::empty().insert(
            normalize(u),
            locator_of(e),
        ),
        route_map_of(seq![e]).dom() =~= set![normalize(u)],
{
    assert(seq![e].drop_last() =~= Seq::<ScanEntryModel>::empty());
    assert(seq![e].last() == e);
    assert(route_map_of(Seq::<ScanEntryModel>::empty()) == Map::<Seq<char>, FileTypeModel>::empty());
    assert(route_map_of(seq![e]) == Map::<Seq<char>, FileTypeModel>::empty().insert(
        normalize(u),
        locator_of(e),
    ));
}

/// First position at or after `i` whose pattern matches `path`, or `-1`.
pub open spec fn first_match_from(keys: Seq<Seq<char>>, path: Seq<char>, i: int) -> int
    decreases keys.len() - i,
{
    if i < 0 || i >= keys.len() {
        -1
    } else if route_matches(keys[i], path) {
        i
    } else {
        first_match_from(keys, path, i + 1)
    }
}

/// Resolves `path` — already normalized — against the table: the first
/// pattern, in table order, that matches it.
pub fn find_route(table: &RouteTable, path: &str) -> (r: Option<usize>)
    ensures
        ({
            let f = first_match_from(table.keys_view(), path@, 0);
            match r {
                Some(i) => f == i && i < table.seq_view().len(),
                None => f < 0,
            }
        }),
{
    let ghost keys = table.keys_view();
    let n: usize = table.len();
    let mut i: usize = 0;
    while i < n
        invariant
            keys == table.keys_view(),
            n == table.seq_view().len(),
            n == keys.len(),
            i <= n,
            first_match_from(keys, path@, 0) == first_match_from(keys, path@, i as int),
        decreases n - i,
    {
        proof {
            assert(keys[i as int] == table.seq_view()[i as int].0);
        }
        let key = table.key_at(i);
        let m = Matcher::compile(key.as_str());
        if m.matches(path).is_some() {
            proof {
                assert(route_matches(keys[i as int], path@));
                assert(first_match_from(keys, path@, i as int) == i as int);
            }
            return Some(i);
        }
        proof {
            assert(first_match_from(keys, path@, i as int) == first_match_from(
                keys,
                path@,
                i + 1,
            ));
        }
        i = i + 1;
    }
    None
}

/// The code of a character with an ASCII lowercase letter raised to its
/// uppercase: how two method names are compared.
pub open spec fn upper_code(c: char) -> u32 {
    if 97 <= c as u32 && c as u32 <= 122 {
        (c as u32 - 32) as u32
    } else {
        c as u32
    }
}

/// ASCII-case-insensitive equality of two character sequences.
pub open spec fn eq_ignore_case(a: Seq<char>, b: Seq<char>) -> bool {
    a.len() == b.len() && forall|i: int| 0 <= i < a.len() ==> upper_code(#[trigger] a[i])
        == upper_code(b[i])
}

/// Whether the request's method passes the route's constraint: no constraint
/// accepts any method; a single name or a set of names accepts a method
/// equal to one of them, case-insensitively.
/// Whether any name in the set equals the method, case-insensitively.
pub open spec fn many_allows(v: Seq<Seq<char>>, method: Seq<char>) -> bool {
    exists|i: int| 0 <= i < v.len() && eq_ignore_case(#[trigger] v[i], method)
}

pub open spec fn method_allowed(m: Option<MethodModel>, method: Seq<char>) -> bool {
    match m {
        None => true,
        Some(mm) => match mm {
            MethodModel::One(s) => eq_ignore_case(s, method),
            MethodModel::Many(v) => many_allows(v, method),
        },
    }
}

fn upper_code_exec(c: char) -> (u: u32)
    ensures
        u == upper_code(c),
{
    let x = c as u32;
    if 97 <= x && x <= 122 {
        x - 32
    } else {
        x
    }
}

fn eq_ignore_case_exec(a: &str, b: &str) -> (r: bool)
    ensures
        r == eq_ignore_case(a@, b@),
{
    let av = chars_of(a);
    let bv = chars_of(b);
    if av.len() != bv.len() {
        return false;
    }
    let n: usize = av.len();
    let mut i: usize = 0;
    while i < n
        invariant
            av@ == a@,
            bv@ == b@,
            n == a@.len(),
            n == b@.len(),
            i <= n,
            forall|j: int| 0 <= j < i ==> upper_code(#[trigger] a@[j]) == upper_code(b@[j]),
        decreases n - i,
    {
        if upper_code_exec(av[i]) != upper_code_exec(bv[i]) {
            return false;
        }
        i = i + 1;
    }
    true
}

/// Whether the request's method passes the configuration's constraint.
pub fn method_matches(config: &RouteConfiguration, method: &str) -> (r: bool)
    ensures
        r == method_allowed(config.model().method, method@),
{
    match &config.method {
        None => true,
        Some(MethodConstraint::One(s)) => eq_ignore_case_exec(s.as_str(), method),
        Some(MethodConstraint::Many(v)) => {
            let ghost vm = v@.map_values(|x: String| x@);
            let n: usize = v.len();
            let mut i: usize = 0;
            while i < n
                invariant
                    vm == v@.map_values(|x: String| x@),
                    config.model().method == Some(MethodModel::Many(vm)),
                    n == vm.len(),
                    n == v@.len(),
                    i <= n,
                    forall|j: int| 0 <= j < i ==> !eq_ignore_case(#[trigger] vm[j], method@),
                decreases n - i,
            {
                proof {
                    assert(vm[i as int] == v@[i as int]@);
                }
                if eq_ignore_case_exec(v[i].as_str(), method) {
                    proof {
                        assert(eq_ignore_case(vm[i as int], method@));
                        assert(many_allows(vm, method@));
                    }
                    return true;
                }
                i = i + 1;
            }
            false
        },
    }
}

/// Whether some header in `hs` has the name `n`.
pub open spec fn contains_name(hs: Seq<(Seq<char>, Seq<char>)>, n: Seq<char>) -> bool {
    exists|i: int| 0 <= i < hs.len() && (#[trigger] hs[i]).0 == n
}

/// The headers a configuration requires, as pairs; none means no
/// requirement.
pub open spec fn required_of(cfg: RouteConfigModel) -> Seq<(Seq<char>, Seq<char>)> {
    match cfg.headers {
        Some(h) => h,
        None => Seq::empty(),
    }
}

/// Every required header name is present, by name only: the declared value
/// is not compared.
pub open spec fn headers_ok(
    required: Seq<(Seq<char>, Seq<char>)>,
    have: Seq<(Seq<char>, Seq<char>)>,
) -> bool {
    forall|i: int| 0 <= i < required.len() ==> contains_name(have, (#[trigger] required[i]).0)
}

fn name_present(have: &Vec<(String, String)>, name: &String) -> (r: bool)
    ensures
        r == contains_name(pairs_view(have@), name@),
{
    let n: usize = have.len();
    let mut i: usize = 0;
    while i < n
        invariant
            n == have@.len(),
            i <= n,
            forall|j: int| 0 <= j < i ==> (#[trigger] pairs_view(have@)[j]).0 != name@,
        decreases n - i,
    {
        proof {
            assert(pairs_view(have@)[i as int] == (have@[i as int].0@, have@[i as int].1@));
        }
        if have[i].0 == *name {
            return true;
        }
        i = i + 1;
    }
    proof {
        if contains_name(pairs_view(have@), name@) {
            let i = choose|i: int|
                0 <= i < pairs_view(have@).len() && (#[trigger] pairs_view(have@)[i]).0 == name@;
            assert(pairs_view(have@)[i].0 != name@);
        }
    }
    false
}

fn headers_ok_pairs(required: &Vec<(String, String)>, have: &Vec<(String, String)>) -> (r: bool)
    ensures
        r == headers_ok(pairs_view(required@), pairs_view(have@)),
{
    let n: usize = required.len();
    let mut i: usize = 0;
    while i < n
        invariant
            n == required@.len(),
            i <= n,
            forall|j: int|
                0 <= j < i ==> contains_name(pairs_view(have@), (#[trigger] pairs_view(
                    required@,
                )[j]).0),
        decreases n - i,
    {
        proof {
            assert(pairs_view(required@)[i as int] == (required@[i as int].0@, required@[
                i as int].1@));
        }
        if !name_present(have, &required[i].0) {
            return false;
        }
        i = i + 1;
    }
    true
}

/// The diagnostic for a path no route matches.
pub open spec fn no_route_message_spec(path: Seq<char>) -> Seq<char> {
    "Unable to find route for path: '"@ + path + "'"@
}

/// The diagnostic for a method the route does not allow.
pub open spec fn method_message_spec(method: Seq<char>, path: Seq<char>) -> Seq<char> {
    method + " method is not implemented for path: '"@ + path + "'"@
}

/// A list of headers as the diagnostics render it: `{"name": "value", ...}`.
pub open spec fn pairs_text_from(h: Seq<(Seq<char>, Seq<char>)>, i: int) -> Seq<char>
    decreases h.len() - i,
{
    if i < 0 || i >= h.len() {
        Seq::empty()
    } else {
        let item = seq!['"'] + h[i].0 + seq!['"', ':', ' ', '"'] + h[i].1 + seq!['"'];
        if i == h.len() - 1 {
            item
        } else {
            item + seq![',', ' '] + pairs_text_from(h, i + 1)
        }
    }
}

pub open spec fn pairs_text(h: Seq<(Seq<char>, Seq<char>)>) -> Seq<char> {
    seq!['{'] + pairs_text_from(h, 0) + seq!['}']
}

/// The diagnostic for a request missing required headers: it names the
/// required set and the headers the request did carry.
pub open spec fn missing_headers_message_spec(
    route: Seq<char>,
    required: Seq<(Seq<char>, Seq<char>)>,
    have: Seq<(Seq<char>, Seq<char>)>,
) -> Seq<char> {
    "The request for URL "@ + route + " is missing required headers: '"@ + pairs_text(required)
        + "'. The request had "@ + pairs_text(have) + " headers only"@
}

/// Appends `{"name": "value", ...}` for the given headers.
fn push_pairs_text(out: &mut Vec<char>, h: &Vec<(String, String)>)
    ensures
        final(out)@ == old(out)@ + pairs_text(pairs_view(h@)),
{
    let ghost ph = pairs_view(h@);
    let n: usize = h.len();
    out.push('{');
    let mut i: usize = 0;
    proof {
        assert(out@ + pairs_text_from(ph, 0) =~= old(out)@ + seq!['{'] + pairs_text_from(ph, 0));
    }
    while i < n
        invariant
            ph == pairs_view(h@),
            n == h@.len(),
            n == ph.len(),
            i <= n,
            out@ + pairs_text_from(ph, i as int) =~= old(out)@ + seq!['{'] + pairs_text_from(
                ph,
                0,
            ),
        decreases n - i,
    {
        proof {
            assert(ph[i as int] == (h@[i as int].0@, h@[i as int].1@));
        }
        let ghost mid = out@;
        let pair = &h[i];
        out.push('"');
        push_str_chars(out, pair.0.as_str());
        out.push('"');
        out.push(':');
        out.push(' ');
        out.push('"');
        push_str_chars(out, pair.1.as_str());
        out.push('"');
        proof {
            assert(out@ =~= mid + (seq!['"'] + ph[i as int].0 + seq!['"', ':', ' ', '"'] + ph[
                i as int].1 + seq!['"']));
        }
        if i + 1 < n {
            out.push(',');
            out.push(' ');
            proof {
                assert(pairs_text_from(ph, i as int) == (seq!['"'] + ph[i as int].0 + seq![
                    '"',
                    ':',
                    ' ',
                    '"',
                ] + ph[i as int].1 + seq!['"']) + seq![',', ' '] + pairs_text_from(ph, i + 1));
                assert(out@ + pairs_text_from(ph, i + 1) =~= mid + pairs_text_from(ph, i as int));
            }
        } else {
            proof {
                assert(i == n - 1);
                assert(pairs_text_from(ph, i as int) == seq!['"'] + ph[i as int].0 + seq![
                    '"',
                    ':',
                    ' ',
                    '"',
                ] + ph[i as int].1 + seq!['"']);
                assert(pairs_text_from(ph, i + 1) =~= Seq::<char>::empty());
                assert(out@ + pairs_text_from(ph, i + 1) =~= mid + pairs_text_from(ph, i as int));
            }
        }
        i = i + 1;
    }
    out.push('}');
    proof {
        assert(pairs_text_from(ph, n as int) =~= Seq::<char>::empty());
        assert(out@ =~= old(out)@ + pairs_text(ph));
    }
}

/// The "no route" diagnostic for `path`.
pub fn no_route_message(path: &str) -> (m: String)
    ensures
        m@ == no_route_message_spec(path@),
{
    let mut s = String::new();
    s.append("Unable to find route for path: '");
    s.append(path);
    s.append("'");
    proof {
        assert(s@ =~= no_route_message_spec(path@));
    }
    s
}

/// The "method not implemented" diagnostic.
pub fn method_message(method: &str, path: &str) -> (m: String)
    ensures
        m@ == method_message_spec(method@, path@),
{
    let mut s = String::new();
    s.append(method);
    s.append(" method is not implemented for path: '");
    s.append(path);
    s.append("'");
    proof {
        assert(s@ =~= method_message_spec(method@, path@));
    }
    s
}

/// The "missing required headers" diagnostic.
pub fn missing_headers_message(
    route: &str,
    required: &Vec<(String, String)>,
    have: &Vec<(String, String)>,
) -> (m: String)
    ensures
        m@ == missing_headers_message_spec(route@, pairs_view(required@), pairs_view(have@)),
{
    let mut out: Vec<char> = Vec::new();
    push_str_chars(&mut out, "The request for URL ");
    push_str_chars(&mut out, route);
    push_str_chars(&mut out, " is missing required headers: '");
    push_pairs_text(&mut out, required);
    push_str_chars(&mut out, "'. The request had ");
    push_pairs_text(&mut out, have);
    push_str_chars(&mut out, " headers only");
    proof {
        assert(out@ =~= missing_headers_message_spec(
            route@,
            pairs_view(required@),
            pairs_view(have@),
        ));
    }
    string_from_chars(&out)
}

/// The response the dispatcher hands back: what the transport is to emit.
/// Any delay is to be waited out by the caller before the body is sent,
/// without holding any lock.
pub struct HttpResponseDescriptor {
    pub status_code: u16,
    pub headers: Vec<(String, String)>,
    pub body: String,
    pub delay_ms: Option<u64>,
}

/// The model of a response descriptor.
pub struct DescriptorModel {
    pub status_code: u16,
    pub headers: Seq<(Seq<char>, Seq<char>)>,
    pub body: Seq<char>,
    pub delay_ms: Option<u64>,
}

impl HttpResponseDescriptor {
    pub open spec fn model(&self) -> DescriptorModel {
        DescriptorModel {
            status_code: self.status_code,
            headers: pairs_view(self.headers@),
            body: self.body@,
            delay_ms: self.delay_ms,
        }
    }
}

/// A diagnostic response: the given status, no headers, the message as
/// body, no delay.
pub open spec fn error_descriptor(status: u16, msg: Seq<char>) -> DescriptorModel {
    DescriptorModel { status_code: status, headers: Seq::empty(), body: msg, delay_ms: None }
}

/// The descriptor a validated request gets: the declared status or 200, the
/// declared headers verbatim, the body rendered to JSON, and the declared
/// delay.
pub open spec fn success_of(resp: ResponseModel) -> DescriptorModel {
    DescriptorModel {
        status_code: match resp.status_code {
            Some(c) => c,
            None => 200,
        },
        headers: match resp.headers {
            Some(h) => h,
            None => Seq::empty(),
        },
        body: resp.body_text,
        delay_ms: resp.delay_ms,
    }
}

/// What dispatching a request against a resolved configuration yields:
/// method check first, then the required-header check, then the rendered
/// response.
pub open spec fn dispatch_model(
    cfg: RouteConfigModel,
    method: Seq<char>,
    have: Seq<(Seq<char>, Seq<char>)>,
    path: Seq<char>,
    route: Seq<char>,
) -> DescriptorModel {
    if !method_allowed(cfg.method, method) {
        error_descriptor(501, method_message_spec(method, path))
    } else if !headers_ok(required_of(cfg), have) {
        error_descriptor(501, missing_headers_message_spec(route, required_of(cfg), have))
    } else {
        success_of(cfg.response)
    }
}

/// Why a request was not served from a route.
#[derive(Debug)]
pub enum DispatchError {
    /// No route pattern matched the path.
    NoRoute(String),
    /// The route does not allow the request's method.
    MethodNotAllowed(String),
    /// The request lacks a header the route requires.
    MissingHeaders(String),
}

impl DispatchError {
    /// The diagnostic the error carries.
    pub open spec fn message(&self) -> Seq<char> {
        match self {
            DispatchError::NoRoute(m) => m@,
            DispatchError::MethodNotAllowed(m) => m@,
            DispatchError::MissingHeaders(m) => m@,
        }
    }
}

/// Why a configuration file could not be loaded.
#[derive(Debug, Clone, Copy, PartialEq, Eq, Structural)]
pub enum LoadError {
    /// The file could not be opened or read.
    Io,
    /// Its content did not parse in the declared format.
    Parse,
}

/// Dispatches a request against the configuration resolved for `route`:
/// rejects a method the route does not allow, then a request missing a
/// required header — each with its exact diagnostic — and otherwise renders
/// the declared response.
pub fn get_http_response_from_incoming_request(
    result: &RouteConfiguration,
    method: &str,
    req_headers: &Vec<(String, String)>,
    path: &str,
    route: &str,
) -> (r: Result<HttpResponseDescriptor, DispatchError>)
    ensures
        ({
            let cfg = result.model();
            let have = pairs_view(req_headers@);
            if !method_allowed(cfg.method, method@) {
                r matches Err(DispatchError::MethodNotAllowed(m)) && m@ == method_message_spec(
                    method@,
                    path@,
                )
            } else if !headers_ok(required_of(cfg), have) {
                r matches Err(DispatchError::MissingHeaders(m)) && m@
                    == missing_headers_message_spec(route@, required_of(cfg), have)
            } else {
                r matches Ok(d) && d.model() == success_of(cfg.response)
            }
        }),
{
    if !method_matches(result, method) {
        return Err(DispatchError::MethodNotAllowed(method_message(method, path)));
    }
    match &result.headers {
        Some(h) => {
            if !headers_ok_pairs(h, req_headers) {
                return Err(
                    DispatchError::MissingHeaders(
                        missing_headers_message(route, h, req_headers),
                    ),
                );
            }
        },
        None => {
            proof {
                assert(required_of(result.model()) =~= Seq::<(Seq<char>, Seq<char>)>::empty());
            }
        },
    }
    let status: u16 = match result.response.status_code {
        Some(c) => c,
        None => 200,
    };
    let headers: Vec<(String, String)> = match &result.response.headers {
        Some(h) => clone_pairs(h),
        None => Vec::new(),
    };
    let body = to_json_string(&result.response.body);
    let d = HttpResponseDescriptor {
        status_code: status,
        headers,
        body,
        delay_ms: result.response.delay_ms,
    };
    proof {
        if result.response.headers is None {
            assert(pairs_view(d.headers@) =~= Seq::<(Seq<char>, Seq<char>)>::empty());
        }
    }
    Ok(d)
}

/// Turns a dispatch error into the diagnostic response the transport emits:
/// status 501 with the error's message as body.
pub fn error_response(e: DispatchError) -> (d: HttpResponseDescriptor)
    ensures
        d.model() == error_descriptor(501, e.message()),
{
    let msg = match e {
        DispatchError::NoRoute(m) => m,
        DispatchError::MethodNotAllowed(m) => m,
        DispatchError::MissingHeaders(m) => m,
    };
    let d = HttpResponseDescriptor {
        status_code: 501,
        headers: Vec::new(),
        body: msg,
        delay_ms: None,
    };
    proof {
        assert(pairs_view(d.headers@) =~= Seq::<(Seq<char>, Seq<char>)>::empty());
    }
    d
}

/// The error for a path no route matches.
pub fn no_route_error(path: &str) -> (e: DispatchError)
    ensures
        e matches DispatchError::NoRoute(m) && m@ == no_route_message_spec(path@),
{
    DispatchError::NoRoute(no_route_message(path))
}

/// Dispatches against a resolved configuration, rendering a rejection as its
/// 501 diagnostic response.
pub fn handle_request_with_config(
    result: &RouteConfiguration,
    method: &str,
    req_headers: &Vec<(String, String)>,
    path: &str,
    route: &str,
) -> (d: HttpResponseDescriptor)
    ensures
        d.model() == dispatch_model(
            result.model(),
            method@,
            pairs_view(req_headers@),
            path@,
            route@,
        ),
{
    match get_http_response_from_incoming_request(result, method, req_headers, path, route) {
        Ok(d) => d,
        Err(e) => error_response(e),
    }
}

/// The diagnostic for a configuration file that could not be read.
pub open spec fn io_failure_message_spec(file: Seq<char>, path: Seq<char>) -> Seq<char> {
    "Unable to read file "@ + file + ", for path: '"@ + path + "'"@
}

/// The diagnostic for a configuration file whose content did not parse.
pub open spec fn parse_failure_message_spec(file: Seq<char>, path: Seq<char>) -> Seq<char> {
    "Unable to open file for read "@ + file + ", for path: '"@ + path + "'"@
}

/// The 500 response a failed load yields, with the diagnostic its kind
/// carries.
pub open spec fn load_failure_model(err: LoadError, file: Seq<char>, path: Seq<char>) -> DescriptorModel {
    match err {
        LoadError::Io => error_descriptor(500, io_failure_message_spec(file, path)),
        LoadError::Parse => error_descriptor(500, parse_failure_message_spec(file, path)),
    }
}

/// The diagnostic response for a configuration file that failed to load.
pub fn load_failure_response(err: &LoadError, file_name: &str, path: &str) -> (d: HttpResponseDescriptor)
    ensures
        d.model() == load_failure_model(*err, file_name@, path@),
{
    let mut s = String::new();
    match err {
        LoadError::Io => {
            s.append("Unable to read file ");
        },
        LoadError::Parse => {
            s.append("Unable to open file for read ");
        },
    }
    s.append(file_name);
    s.append(", for path: '");
    s.append(path);
    s.append("'");
    let d = HttpResponseDescriptor {
        status_code: 500,
        headers: Vec::new(),
        body: s,
        delay_ms: None,
    };
    proof {
        assert(pairs_view(d.headers@) =~= Seq::<(Seq<char>, Seq<char>)>::empty());
        match *err {
            LoadError::Io => {
                assert(d.body@ =~= io_failure_message_spec(file_name@, path@));
            },
            LoadError::Parse => {
                assert(d.body@ =~= parse_failure_message_spec(file_name@, path@));
            },
        }
    }
    d
}

/// Completes a request whose configuration had to be loaded from disk: a
/// loaded configuration is stored in the cache under its route and
/// dispatched against; a failed load yields its 500 diagnostic and leaves
/// the cache alone.
pub fn respond_after_load(
    cache: &mut Cache,
    route: String,
    loaded: Result<RouteConfiguration, LoadError>,
    file_name: &str,
    method: &str,
    req_headers: &Vec<(String, String)>,
    path: &str,
) -> (d: HttpResponseDescriptor)
    requires
        old(cache).wf(),
    ensures
        final(cache).wf(),
        final(cache).capacity_spec() == old(cache).capacity_spec(),
        ({
            let s = old(cache).entries_view();
            match loaded {
                Ok(config) => {
                    let m = (route@, config.model());
                    &&& d.model() == dispatch_model(
                        config.model(),
                        method@,
                        pairs_view(req_headers@),
                        path@,
                        route@,
                    )
                    &&& if has_key(s, route@) {
                        final(cache).entries_view() == seq![m] + s.remove(find_key(s, route@))
                    } else if s.len() < old(cache).capacity_spec() {
                        final(cache).entries_view() == seq![m] + s
                    } else {
                        final(cache).entries_view() == seq![m] + s.drop_last()
                    }
                },
                Err(e) => {
                    &&& d.model() == load_failure_model(e, file_name@, path@)
                    &&& final(cache).entries_view() == s
                },
            }
        }),
{
    match loaded {
        Ok(config) => {
            let d = handle_request_with_config(&config, method, req_headers, path, route.as_str());
            cache.insert(route, config);
            d
        },
        Err(e) => load_failure_response(&e, file_name, path),
    }
}

/// What one resolution step decided.
pub enum HandleOutcome {
    /// The response is ready.
    Done(HttpResponseDescriptor),
    /// The path resolved to this route, at this table position, but its
    /// configuration is not cached: the caller must load the backing file
    /// and finish with `respond_after_load`.
    NeedsLoad(String, usize),
}

/// One request against the current table and cache: normalizes the path,
/// resolves it to the first matching route, and serves from the cache when
/// it can; a path no route matches gets the 501 "no route" diagnostic; a
/// cache miss hands back the route to load.
pub fn handle_request(
    table: &RouteTable,
    cache: &mut Cache,
    method: &str,
    req_headers: &Vec<(String, String)>,
    raw_path: &str,
) -> (r: HandleOutcome)
    requires
        old(cache).wf(),
    ensures
        final(cache).wf(),
        final(cache).capacity_spec() == old(cache).capacity_spec(),
        ({
            let path = normalize(raw_path@);
            let f = first_match_from(table.keys_view(), path, 0);
            let s = old(cache).entries_view();
            if f < 0 {
                r matches HandleOutcome::Done(d) && d.model() == error_descriptor(
                    501,
                    no_route_message_spec(path),
                ) && final(cache).entries_view() == s
            } else {
                let route = table.keys_view()[f];
                if has_key(s, route) {
                    r matches HandleOutcome::Done(d) && d.model() == dispatch_model(
                        s[find_key(s, route)].1,
                        method@,
                        pairs_view(req_headers@),
                        path,
                        route,
                    ) && final(cache).entries_view() == seq![s[find_key(s, route)]] + s.remove(
                        find_key(s, route),
                    )
                } else {
                    r matches HandleOutcome::NeedsLoad(rt, i) && rt@ == route && i == f
                        && final(cache).entries_view() == s
                }
            }
        }),
{
    let path = normalize_path(raw_path);
    match find_route(table, path.as_str()) {
        None => HandleOutcome::Done(error_response(no_route_error(path.as_str()))),
        Some(i) => {
            let route = table.key_at(i).clone();
            match cache.get(route.clone()) {
                Some(config) => {
                    let d = handle_request_with_config(
                        &config,
                        method,
                        req_headers,
                        path.as_str(),
                        route.as_str(),
                    );
                    HandleOutcome::Done(d)
                },
                None => HandleOutcome::NeedsLoad(route, i),
            }
        },
    }
}

} // verus!
