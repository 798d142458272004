//! The deserialized contents of one configuration file: an optional
//! diagnostic name, a method constraint, the declared route pattern, the
//! required headers, and the response to synthesize. Each type carries a
//! mathematical model over sequences, under which construction and copying
//! are exact.

use vstd::prelude::*;
use crate::json::JsonValue;
use crate::json::json_of;

verus! {

/// A list of header pairs as the model sees it: each name and value as a
/// character sequence.
pub open spec fn pairs_view(v: Seq<(String, String)>) -> Seq<(Seq<char>, Seq<char>)> {
    v.map_values(|p: (String, String)| (p.0@, p.1@))
}

/// Copies a list of header pairs.
pub fn clone_pairs(v: &Vec<(String, String)>) -> (r: Vec<(String, String)>)
    ensures
        pairs_view(r@) == pairs_view(v@),
{
    let n: usize = v.len();
    let mut r: Vec<(String, String)> = Vec::new();
    let mut i: usize = 0;
    while i < n
        invariant
            n == v@.len(),
            i <= n,
            r@.len() == i,
            forall|j: int|
                0 <= j < i ==> (#[trigger] r@[j]).0@ == v@[j].0@ && r@[j].1@ == v@[j].1@,
        decreases n - i,
    {
        let p = &v[i];
        r.push((p.0.clone(), p.1.clone()));
        i = i + 1;
    }
    proof {
        assert(pairs_view(r@) =~= pairs_view(v@));
    }
    r
}

/// Copies a list of strings.
pub fn clone_strings(v: &Vec<String>) -> (r: Vec<String>)
    ensures
        r@.map_values(|x: String| x@) == v@.map_values(|x: String| x@),
{
    let n: usize = v.len();
    let mut r: Vec<String> = Vec::new();
    let mut i: usize = 0;
    while i < n
        invariant
            n == v@.len(),
            i <= n,
            r@.len() == i,
            forall|j: int| 0 <= j < i ==> (#[trigger] r@[j])@ == v@[j]@,
        decreases n - i,
    {
        let p = &v[i];
        r.push(p.clone());
        i = i + 1;
    }
    proof {
        assert(r@.map_values(|x: String| x@) =~= v@.map_values(|x: String| x@));
    }
    r
}

/// A route's method constraint, when one is declared: a single method name,
/// or a set of method names.
pub enum MethodConstraint {
    One(String),
    Many(Vec<String>),
}

/// The model of a method constraint.
pub enum MethodModel {
    One(Seq<char>),
    Many(Seq<Seq<char>>),
}

impl MethodConstraint {
    pub open spec fn model(&self) -> MethodModel {
        match self {
            MethodConstraint::One(s) => MethodModel::One(s@),
            MethodConstraint::Many(v) => MethodModel::Many(v@.map_values(|x: String| x@)),
        }
    }
}

impl Clone for MethodConstraint {
    /// A structural copy, under the same model.
    fn clone(&self) -> (r: MethodConstraint)
        ensures
            r.model() == self.model(),
    {
        match self {
            MethodConstraint::One(s) => MethodConstraint::One(s.clone()),
            MethodConstraint::Many(v) => MethodConstraint::Many(clone_strings(v)),
        }
    }
}

/// The response a route declares: extra headers, a structured body, an
/// optional status code (200 when absent), and an optional artificial delay
/// in milliseconds.
pub struct Response {
    pub headers: Option<Vec<(String, String)>>,
    pub body: JsonValue,
    pub status_code: Option<u16>,
    pub delay_ms: Option<u64>,
}

/// The model of a response: its headers as sequences, and its body by the
/// JSON text it renders to.
pub struct ResponseModel {
    pub headers: Option<Seq<(Seq<char>, Seq<char>)>>,
    pub body_text: Seq<char>,
    pub status_code: Option<u16>,
    pub delay_ms: Option<u64>,
}

impl Response {
    pub open spec fn model(&self) -> ResponseModel {
        ResponseModel {
            headers: match self.headers {
                Some(h) => Some(pairs_view(h@)),
                None => None,
            },
            body_text: json_of(self.body),
            status_code: self.status_code,
            delay_ms: self.delay_ms,
        }
    }

    pub fn new(
        headers: Option<Vec<(String, String)>>,
        body: JsonValue,
        status_code: Option<u16>,
        delay_ms: Option<u64>,
    ) -> (r: Response)
        ensures
            r.headers == headers,
            r.body == body,
            r.status_code == status_code,
            r.delay_ms == delay_ms,
    {
        Response { headers, body, status_code, delay_ms }
    }

    /// The empty response: no headers, a null body, default status, no delay.
    pub fn default() -> (r: Response)
        ensures
            r.headers is None,
            r.body == JsonValue::Null,
            r.status_code is None,
            r.delay_ms is None,
    {
        Response { headers: None, body: JsonValue::Null, status_code: None, delay_ms: None }
    }
}

impl Clone for Response {
    /// A structural copy, under the same model.
    fn clone(&self) -> (r: Response)
        ensures
            r.model() == self.model(),
    {
        Response {
            headers: match &self.headers {
                Some(h) => Some(clone_pairs(h)),
                None => None,
            },
            body: self.body.clone(),
            status_code: self.status_code,
            delay_ms: self.delay_ms,
        }
    }
}

/// The deserialized contents of one configuration file.
pub struct RouteConfiguration {
    pub name: Option<String>,
    pub method: Option<MethodConstraint>,
    pub url: String,
    pub headers: Option<Vec<(String, String)>>,
    pub response: Response,
}

/// The model of a route configuration.
pub struct RouteConfigModel {
    pub name: Option<Seq<char>>,
    pub method: Option<MethodModel>,
    pub url: Seq<char>,
    pub headers: Option<Seq<(Seq<char>, Seq<char>)>>,
    pub response: ResponseModel,
}

impl RouteConfiguration {
    pub open spec fn model(&self) -> RouteConfigModel {
        RouteConfigModel {
            name: match self.name {
                Some(n) => Some(n@),
                None => None,
            },
            method: match self.method {
                Some(m) => Some(m.model()),
                None => None,
            },
            url: self.url@,
            headers: match self.headers {
                Some(h) => Some(pairs_view(h@)),
                None => None,
            },
            response: self.response.model(),
        }
    }

    pub fn new(
        name: Option<String>,
        method: Option<MethodConstraint>,
        url: String,
        headers: Option<Vec<(String, String)>>,
        response: Response,
    ) -> (r: RouteConfiguration)
        ensures
            r.name == name,
            r.method == method,
            r.url == url,
            r.headers == headers,
            r.response == response,
    {
        RouteConfiguration { name, method, url, headers, response }
    }

    /// The empty configuration: no constraints, an empty pattern, and the
    /// default response.
    pub fn default() -> (r: RouteConfiguration)
        ensures
            r.name is None,
            r.method is None,
            r.url@ == Seq::<char>::empty(),
            r.headers is None,
            r.response.headers is None,
            r.response.body == JsonValue::Null,
            r.response.status_code is None,
            r.response.delay_ms is None,
    {
        RouteConfiguration {
            name: None,
            method: None,
            url: String::new(),
            headers: None,
            response: Response::default(),
        }
    }
}

impl Clone for RouteConfiguration {
    /// A structural copy, under the same model.
    fn clone(&self) -> (r: RouteConfiguration)
        ensures
            r.model() == self.model(),
    {
        RouteConfiguration {
            name: match &self.name {
                Some(n) => Some(n.clone()),
                None => None,
            },
            method: match &self.method {
                Some(m) => Some(m.clone()),
                None => None,
            },
            url: self.url.clone(),
            headers: match &self.headers {
                Some(h) => Some(clone_pairs(h)),
                None => None,
            },
            response: self.response.clone(),
        }
    }
}

} // verus!
