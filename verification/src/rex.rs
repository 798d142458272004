//! The pattern matcher: a route pattern is a slash-separated template whose
//! segments are either literal tokens or `{name}` placeholders. A compiled
//! matcher tests a path against the pattern, segment by segment, anchored at
//! both ends, and captures the path segment standing at each placeholder.
//! The matcher also synthesizes the equivalent anchored regular-expression
//! source for the pattern.

use vstd::prelude::*;
use crate::strutil::chars_of;
use crate::strutil::chars_eq;
use crate::strutil::push_chars;
use crate::strutil::push_str_chars;
use crate::strutil::string_from_chars;

verus! {

/// Index of the first `/` in `s`, or `s.len()` if there is none.
pub open spec fn first_slash(s: Seq<char>) -> int
    decreases s.len(),
{
    if s.len() == 0 {
        0
    } else if s[0] == '/' {
        0
    } else {
        1 + first_slash(s.skip(1))
    }
}

pub proof fn lemma_first_slash(s: Seq<char>)
    ensures
        0 <= first_slash(s) <= s.len(),
        forall|i: int| 0 <= i < first_slash(s) ==> s[i] != '/',
        first_slash(s) < s.len() ==> s[first_slash(s)] == '/',
    decreases s.len(),
{
    if s.len() == 0 {
    } else if s[0] == '/' {
    } else {
        lemma_first_slash(s.skip(1));
        assert forall|i: int| 0 <= i < first_slash(s) implies s[i] != '/' by {
            if i > 0 {
                assert(s.skip(1)[i - 1] == s[i]);
            }
        }
        if first_slash(s) < s.len() {
            assert(s.skip(1)[first_slash(s.skip(1))] == s[first_slash(s)]);
        }
    }
}

/// The segments of `s`, split on `/`; splitting the empty sequence gives one
/// empty segment, as `str::split` does.
pub open spec fn split_slash(s: Seq<char>) -> Seq<Seq<char>>
    decreases s.len(),
{
    let i = first_slash(s);
    if 0 <= i && i < s.len() {
        seq![s.take(i)] + split_slash(s.skip(i + 1))
    } else {
        seq![s]
    }
}

pub proof fn lemma_split_slash_len(s: Seq<char>)
    ensures
        split_slash(s).len() >= 1,
    decreases s.len(),
{
    lemma_first_slash(s);
    let i = first_slash(s);
    if 0 <= i && i < s.len() {
        lemma_split_slash_len(s.skip(i + 1));
    }
}

/// Count of leading `/` characters.
pub open spec fn lead_slashes(s: Seq<char>) -> int
    decreases s.len(),
{
    if s.len() == 0 {
        0
    } else if s[0] == '/' {
        1 + lead_slashes(s.skip(1))
    } else {
        0
    }
}

/// Length of `s` once trailing `/` characters are dropped.
pub open spec fn end_sans_slashes(s: Seq<char>) -> int
    decreases s.len(),
{
    if s.len() == 0 {
        0
    } else if s[s.len() - 1] == '/' {
        end_sans_slashes(s.take(s.len() - 1))
    } else {
        s.len() as int
    }
}

/// `s` with every leading and trailing `/` removed: the normal form under
/// which a route pattern is keyed in the route table, and the form a request
/// path takes before matching.
pub open spec fn normalize(s: Seq<char>) -> Seq<char> {
    if lead_slashes(s) >= end_sans_slashes(s) {
        Seq::empty()
    } else {
        s.subrange(lead_slashes(s), end_sans_slashes(s))
    }
}

pub proof fn lemma_lead_slashes(s: Seq<char>)
    ensures
        0 <= lead_slashes(s) <= s.len(),
        forall|i: int| 0 <= i < lead_slashes(s) ==> s[i] == '/',
        lead_slashes(s) < s.len() ==> s[lead_slashes(s)] != '/',
    decreases s.len(),
{
    if s.len() == 0 {
    } else if s[0] == '/' {
        lemma_lead_slashes(s.skip(1));
        assert forall|i: int| 0 <= i < lead_slashes(s) implies s[i] == '/' by {
            if i > 0 {
                assert(s.skip(1)[i - 1] == s[i]);
            }
        }
        if lead_slashes(s) < s.len() {
            assert(s.skip(1)[lead_slashes(s.skip(1))] == s[lead_slashes(s)]);
        }
    } else {
    }
}

pub proof fn lemma_end_sans_slashes(s: Seq<char>)
    ensures
        0 <= end_sans_slashes(s) <= s.len(),
        forall|i: int| end_sans_slashes(s) <= i < s.len() ==> s[i] == '/',
        end_sans_slashes(s) > 0 ==> s[end_sans_slashes(s) - 1] != '/',
    decreases s.len(),
{
    if s.len() == 0 {
    } else if s[s.len() - 1] == '/' {
        lemma_end_sans_slashes(s.take(s.len() - 1));
        assert forall|i: int| end_sans_slashes(s) <= i < s.len() implies s[i] == '/' by {
            if i < s.len() - 1 {
                assert(s.take(s.len() - 1)[i] == s[i]);
            }
        }
    } else {
    }
}

/// The characters of `v` from `a` (inclusive) to `b` (exclusive).
pub fn subvec(v: &Vec<char>, a: usize, b: usize) -> (r: Vec<char>)
    requires
        a <= b <= v@.len(),
    ensures
        r@ == v@.subrange(a as int, b as int),
{
    let mut r: Vec<char> = Vec::new();
    let mut i: usize = a;
    while i < b
        invariant
            a <= i <= b <= v@.len(),
            r@ == v@.subrange(a as int, i as int),
        decreases b - i,
    {
        let c = v[i];
        r.push(c);
        i = i + 1;
        proof {
            assert(r@ =~= v@.subrange(a as int, i as int));
        }
    }
    r
}

/// Splits `v` on `/`, as `split_slash` describes.
pub fn split_on_slash(v: &Vec<char>) -> (parts: Vec<Vec<char>>)
    ensures
        parts@.map_values(|p: Vec<char>| p@) == split_slash(v@),
{
    let n: usize = v.len();
    let mut parts: Vec<Vec<char>> = Vec::new();
    let mut start: usize = 0;
    let mut i: usize = 0;
    proof {
        assert(v@.skip(0) =~= v@);
        assert(parts@.map_values(|p: Vec<char>| p@) =~= Seq::<Seq<char>>::empty());
    }
    while i < n
        invariant
            n == v@.len(),
            start <= i <= n,
            forall|j: int| start <= j < i ==> v@[j] != '/',
            split_slash(v@) =~= parts@.map_values(|p: Vec<char>| p@) + split_slash(
                v@.skip(start as int),
            ),
        decreases n - i,
    {
        if v[i] == '/' {
            let seg = subvec(v, start, i);
            proof {
                let rest = v@.skip(start as int);
                lemma_first_slash(rest);
                assert forall|j: int| 0 <= j < i - start implies rest[j] != '/' by {
                    assert(rest[j] == v@[start + j]);
                }
                assert(rest[i - start] == v@[i as int]);
                if first_slash(rest) < i - start {
                    assert(rest[first_slash(rest)] != '/');
                    assert(false);
                }
                if first_slash(rest) > i - start {
                    assert(false);
                }
                assert(first_slash(rest) == i - start);
                assert(rest.take(i - start) =~= v@.subrange(start as int, i as int));
                assert(rest.skip(i - start + 1) =~= v@.skip(i + 1));
                assert(split_slash(rest) == seq![rest.take(i - start)] + split_slash(
                    rest.skip(i - start + 1),
                ));
            }
            parts.push(seg);
            proof {
                assert(split_slash(v@) =~= parts@.map_values(|p: Vec<char>| p@) + split_slash(
                    v@.skip(i + 1),
                ));
            }
            start = i + 1;
        }
        i = i + 1;
    }
    let seg = subvec(v, start, n);
    proof {
        let rest = v@.skip(start as int);
        lemma_first_slash(rest);
        assert forall|j: int| 0 <= j < rest.len() implies rest[j] != '/' by {
            assert(rest[j] == v@[start + j]);
        }
        if first_slash(rest) < rest.len() {
            assert(false);
        }
        assert(split_slash(rest) == seq![rest]);
        assert(rest =~= v@.subrange(start as int, n as int));
    }
    parts.push(seg);
    proof {
        assert(parts@.map_values(|p: Vec<char>| p@) =~= split_slash(v@));
    }
    parts
}

/// `s` with leading and trailing slashes stripped.
pub fn normalize_path(s: &str) -> (r: String)
    ensures
        r@ == normalize(s@),
{
    let v = chars_of(s);
    let n: usize = v.len();
    let mut a: usize = 0;
    proof {
        assert(s@.skip(0) =~= s@);
    }
    while a < n && v[a] == '/'
        invariant
            n == v@.len(),
            v@ == s@,
            a <= n,
            lead_slashes(s@) == a + lead_slashes(s@.skip(a as int)),
        decreases n - a,
    {
        proof {
            let rest = s@.skip(a as int);
            assert(rest[0] == s@[a as int]);
            assert(rest.skip(1) =~= s@.skip(a + 1));
            assert(lead_slashes(rest) == 1 + lead_slashes(s@.skip(a + 1)));
        }
        a = a + 1;
    }
    proof {
        let rest = s@.skip(a as int);
        if a < n {
            assert(rest[0] == s@[a as int]);
            assert(lead_slashes(rest) == 0);
        }
        assert(lead_slashes(s@) == a as int);
    }
    let mut b: usize = n;
    proof {
        assert(s@.take(n as int) =~= s@);
    }
    while b > 0 && v[b - 1] == '/'
        invariant
            n == v@.len(),
            v@ == s@,
            b <= n,
            end_sans_slashes(s@) == end_sans_slashes(s@.take(b as int)),
        decreases b,
    {
        proof {
            let cur = s@.take(b as int);
            assert(cur[b - 1] == s@[b - 1]);
            assert(cur.take(b - 1) =~= s@.take(b - 1));
        }
        b = b - 1;
    }
    proof {
        let cur = s@.take(b as int);
        if b > 0 {
            assert(cur[b - 1] == s@[b - 1]);
        }
        assert(end_sans_slashes(s@) == b as int);
    }
    if a >= b {
        proof {
            assert(normalize(s@) =~= Seq::<char>::empty());
        }
        String::new()
    } else {
        let seg = subvec(&v, a, b);
        string_from_chars(&seg)
    }
}

/// A word character: ASCII letter, digit, or underscore — what one segment
/// captured by a placeholder may consist of.
pub open spec fn is_word_char(c: char) -> bool {
    ('a' as u32 <= c as u32 && c as u32 <= 'z' as u32) || ('A' as u32 <= c as u32 && c as u32
        <= 'Z' as u32) || ('0' as u32 <= c as u32 && c as u32 <= '9' as u32) || c == '_'
}

fn is_word_char_exec(c: char) -> (r: bool)
    ensures
        r == is_word_char(c),
{
    let u = c as u32;
    (97 <= u && u <= 122) || (65 <= u && u <= 90) || (48 <= u && u <= 57) || u == 95
}

/// A placeholder segment: `{` ... `}`.
pub open spec fn is_placeholder(seg: Seq<char>) -> bool {
    seg.len() >= 2 && seg[0] == '{' && seg[seg.len() - 1] == '}'
}

/// A nonempty run of word characters: what a placeholder accepts.
pub open spec fn is_word_seg(t: Seq<char>) -> bool {
    t.len() > 0 && forall|i: int| 0 <= i < t.len() ==> is_word_char(#[trigger] t[i])
}

/// One pattern segment against one path segment: a placeholder accepts any
/// nonempty word; a literal accepts itself verbatim.
pub open spec fn seg_matches(p: Seq<char>, t: Seq<char>) -> bool {
    if is_placeholder(p) {
        is_word_seg(t)
    } else {
        t == p
    }
}

/// Anchored matching: same arity, and every segment matches in place.
pub open spec fn segs_match(ps: Seq<Seq<char>>, ts: Seq<Seq<char>>) -> bool {
    ps.len() == ts.len() && forall|i: int|
        0 <= i < ps.len() ==> seg_matches(#[trigger] ps[i], ts[i])
}

/// Whether `path` matches the route pattern `route`.
pub open spec fn route_matches(route: Seq<char>, path: Seq<char>) -> bool {
    segs_match(split_slash(route), split_slash(path))
}

/// The path segments standing at the pattern's placeholders from position `i`
/// on, in left-to-right order.
pub open spec fn captures_from(ps: Seq<Seq<char>>, ts: Seq<Seq<char>>, i: int) -> Seq<Seq<char>>
    decreases ps.len() - i,
{
    if i < 0 || i >= ps.len() {
        Seq::empty()
    } else {
        let rest = captures_from(ps, ts, i + 1);
        if is_placeholder(ps[i]) {
            seq![ts[i]] + rest
        } else {
            rest
        }
    }
}

/// The captured path segments, one per placeholder, in order.
pub open spec fn captures_of(ps: Seq<Seq<char>>, ts: Seq<Seq<char>>) -> Seq<Seq<char>> {
    captures_from(ps, ts, 0)
}

pub open spec fn placeholder_count_from(ps: Seq<Seq<char>>, i: int) -> int
    decreases ps.len() - i,
{
    if i < 0 || i >= ps.len() {
        0
    } else {
        (if is_placeholder(ps[i]) {
            1int
        } else {
            0int
        }) + placeholder_count_from(ps, i + 1)
    }
}

/// How many placeholder segments the pattern holds.
pub open spec fn placeholder_count(ps: Seq<Seq<char>>) -> int {
    placeholder_count_from(ps, 0)
}

pub proof fn lemma_captures_count(ps: Seq<Seq<char>>, ts: Seq<Seq<char>>, i: int)
    ensures
        captures_from(ps, ts, i).len() == placeholder_count_from(ps, i),
    decreases ps.len() - i,
{
    if i < 0 || i >= ps.len() {
    } else {
        lemma_captures_count(ps, ts, i + 1);
    }
}

/// For any pattern, a matching path yields exactly one capture per
/// placeholder.
pub proof fn lemma_captures_per_placeholder(route: Seq<char>, path: Seq<char>)
    ensures
        captures_of(split_slash(route), split_slash(path)).len() == placeholder_count(
            split_slash(route),
        ),
{
    lemma_captures_count(split_slash(route), split_slash(path), 0);
}

/// A path of the pattern's own arity whose segments equal each literal
/// segment verbatim and fill each placeholder with a nonempty word matches
/// the pattern.
pub proof fn lemma_match_by_segments(ps: Seq<Seq<char>>, ts: Seq<Seq<char>>)
    requires
        ps.len() == ts.len(),
        forall|i: int| 0 <= i < ps.len() && !is_placeholder(#[trigger] ps[i]) ==> ts[i] == ps[i],
        forall|i: int| 0 <= i < ps.len() && is_placeholder(#[trigger] ps[i]) ==> is_word_seg(ts[i]),
    ensures
        segs_match(ps, ts),
{
}

/// A segment with no `/` in it: what `split_slash` yields.
pub open spec fn slash_free(seg: Seq<char>) -> bool {
    forall|j: int| 0 <= j < seg.len() ==> seg[j] != '/'
}

pub proof fn lemma_split_parts_slash_free(s: Seq<char>)
    ensures
        forall|i: int| 0 <= i < split_slash(s).len() ==> slash_free(#[trigger] split_slash(s)[i]),
    decreases s.len(),
{
    lemma_first_slash(s);
    let k = first_slash(s);
    if 0 <= k && k < s.len() {
        lemma_split_parts_slash_free(s.skip(k + 1));
        assert forall|i: int| 0 <= i < split_slash(s).len() implies slash_free(
            #[trigger] split_slash(s)[i],
        ) by {
            if i == 0 {
                assert(split_slash(s)[0] == s.take(k));
                assert forall|j: int| 0 <= j < s.take(k).len() implies s.take(k)[j] != '/' by {
                    assert(s.take(k)[j] == s[j]);
                }
            } else {
                assert(split_slash(s)[i] == split_slash(s.skip(k + 1))[i - 1]);
            }
        }
    } else {
        assert(split_slash(s) == seq![s]);
        assert forall|j: int| 0 <= j < s.len() implies s[j] != '/' by {}
        assert(split_slash(s)[0] == s);
    }
}

/// The segments joined with `/` between them: how a path is assembled from
/// its segments.
pub open spec fn join_slash(ts: Seq<Seq<char>>) -> Seq<char>
    decreases ts.len(),
{
    if ts.len() == 0 {
        Seq::empty()
    } else if ts.len() == 1 {
        ts[0]
    } else {
        ts[0] + seq!['/'] + join_slash(ts.skip(1))
    }
}

/// Splitting undoes joining, for slash-free segments.
pub proof fn lemma_split_join(ts: Seq<Seq<char>>)
    requires
        ts.len() >= 1,
        forall|i: int| 0 <= i < ts.len() ==> slash_free(#[trigger] ts[i]),
    ensures
        split_slash(join_slash(ts)) == ts,
    decreases ts.len(),
{
    let s = join_slash(ts);
    lemma_first_slash(s);
    if ts.len() == 1 {
        assert(s == ts[0]);
        assert(slash_free(ts[0]));
        if first_slash(s) < s.len() {
            assert(s[first_slash(s)] == '/');
            assert(s[first_slash(s)] != '/');
        }
        assert(split_slash(s) == seq![s]);
        assert(seq![s] =~= ts);
    } else {
        let head = ts[0];
        let rest = join_slash(ts.skip(1));
        assert(s == head + seq!['/'] + rest);
        assert forall|j: int| 0 <= j < head.len() implies s[j] != '/' by {
            assert(s[j] == head[j]);
            assert(slash_free(ts[0]));
        }
        assert(s[head.len() as int] == '/');
        let k = first_slash(s);
        if k < head.len() {
            assert(s[k] != '/');
            assert(s[k] == '/');
        }
        if k > head.len() {
            assert(s[head.len() as int] != '/');
        }
        assert(k == head.len());
        assert(s.take(k) =~= head);
        assert(s.skip(k + 1) =~= rest);
        assert forall|i: int| 0 <= i < ts.skip(1).len() implies slash_free(
            #[trigger] ts.skip(1)[i],
        ) by {
            assert(ts.skip(1)[i] == ts[i + 1]);
        }
        lemma_split_join(ts.skip(1));
        assert(split_slash(s) == seq![head] + ts.skip(1));
        assert(seq![head] + ts.skip(1) =~= ts);
    }
}

/// Word characters are never slashes, so a nonempty word is a valid path
/// segment.
pub proof fn lemma_word_seg_slash_free(t: Seq<char>)
    requires
        is_word_seg(t),
    ensures
        slash_free(t),
{
    assert forall|j: int| 0 <= j < t.len() implies t[j] != '/' by {
        assert(is_word_char(t[j]));
    }
}

/// For any pattern, a path assembled from the pattern's own segments — each
/// literal kept verbatim, each placeholder filled with any nonempty word —
/// matches the pattern.
pub proof fn lemma_filled_pattern_matches(route: Seq<char>, ts: Seq<Seq<char>>)
    requires
        ts.len() == split_slash(route).len(),
        forall|i: int|
            0 <= i < ts.len() && !is_placeholder(#[trigger] split_slash(route)[i]) ==> ts[i]
                == split_slash(route)[i],
        forall|i: int|
            0 <= i < ts.len() && is_placeholder(#[trigger] split_slash(route)[i])
                ==> is_word_seg(ts[i]),
    ensures
        route_matches(route, join_slash(ts)),
{
    lemma_split_slash_len(route);
    lemma_split_parts_slash_free(route);
    assert forall|i: int| 0 <= i < ts.len() implies slash_free(#[trigger] ts[i]) by {
        if is_placeholder(split_slash(route)[i]) {
            lemma_word_seg_slash_free(ts[i]);
        } else {
            assert(ts[i] == split_slash(route)[i]);
            assert(slash_free(split_slash(route)[i]));
        }
    }
    lemma_split_join(ts);
    lemma_match_by_segments(split_slash(route), ts);
}

/// One compiled segment of a route pattern. A placeholder keeps its declared
/// text (`{id}`) so the compiled form determines the pattern it came from.
pub enum Segment {
    Literal(Vec<char>),
    Placeholder(Vec<char>),
}

impl Segment {
    /// The segment as it stood in the pattern.
    pub open spec fn text(&self) -> Seq<char> {
        match self {
            Segment::Literal(l) => l@,
            Segment::Placeholder(p) => p@,
        }
    }

    /// The variant agrees with the shape of its text.
    pub open spec fn wf(&self) -> bool {
        match self {
            Segment::Literal(l) => !is_placeholder(l@),
            Segment::Placeholder(p) => is_placeholder(p@),
        }
    }
}

/// A compiled route pattern: its segments, in order.
pub struct Matcher {
    segments: Vec<Segment>,
}

impl Matcher {
    /// The pattern's segments, as split on `/`.
    pub closed spec fn segs(&self) -> Seq<Seq<char>> {
        self.segments@.map_values(|g: Segment| g.text())
    }

    pub closed spec fn wf(&self) -> bool {
        forall|i: int| 0 <= i < self.segments@.len() ==> (#[trigger] self.segments@[i]).wf()
    }

    /// Compiles a route pattern. Compilation never fails: any segment that is
    /// not `{` ... `}` is taken as a literal.
    pub fn compile(pattern: &str) -> (m: Matcher)
        ensures
            m.wf(),
            m.segs() == split_slash(pattern@),
    {
        let v = chars_of(pattern);
        let parts = split_on_slash(&v);
        let ghost target = split_slash(pattern@);
        let n: usize = parts.len();
        let mut segments: Vec<Segment> = Vec::new();
        let mut i: usize = 0;
        while i < n
            invariant
                n == parts@.len(),
                parts@.map_values(|p: Vec<char>| p@) == target,
                i <= n,
                segments@.len() == i,
                forall|j: int| 0 <= j < i ==> (#[trigger] segments@[j]).wf(),
                forall|j: int| 0 <= j < i ==> (#[trigger] segments@[j]).text() == target[j],
            decreases n - i,
        {
            let p = &parts[i];
            proof {
                assert(parts@.map_values(|p: Vec<char>| p@)[i as int] == p@);
            }
            let seg_copy = subvec(p, 0, p.len());
            proof {
                assert(seg_copy@ =~= p@);
            }
            let is_ph = p.len() >= 2 && p[0] == '{' && p[p.len() - 1] == '}';
            if is_ph {
                segments.push(Segment::Placeholder(seg_copy));
            } else {
                segments.push(Segment::Literal(seg_copy));
            }
            i = i + 1;
        }
        let m = Matcher { segments };
        proof {
            assert(m.segs() =~= target);
        }
        m
    }

    /// Tests `path` against the pattern. On a match, returns the captured
    /// path segments, one per placeholder, in order.
    pub fn matches(&self, path: &str) -> (r: Option<Vec<String>>)
        requires
            self.wf(),
        ensures
            (r is Some) == segs_match(self.segs(), split_slash(path@)),
            r matches Some(caps) ==> caps@.map_values(|c: String| c@) == captures_of(
                self.segs(),
                split_slash(path@),
            ) && caps@.len() == placeholder_count(self.segs()),
    {
        let pv = chars_of(path);
        let ts = split_on_slash(&pv);
        let ghost ps_spec = self.segs();
        let ghost ts_spec = split_slash(path@);
        let n: usize = self.segments.len();
        if ts.len() != n {
            return None;
        }
        let mut caps: Vec<String> = Vec::new();
        let mut i: usize = 0;
        proof {
            assert(caps@.map_values(|c: String| c@) =~= Seq::<Seq<char>>::empty());
        }
        while i < n
            invariant
                self.wf(),
                ps_spec == self.segs(),
                ts_spec == split_slash(path@),
                n == self.segments@.len(),
                n == ts@.len(),
                ts@.map_values(|p: Vec<char>| p@) == ts_spec,
                ts_spec.len() == n,
                i <= n,
                forall|j: int| 0 <= j < i ==> seg_matches(#[trigger] ps_spec[j], ts_spec[j]),
                captures_from(ps_spec, ts_spec, 0) =~= caps@.map_values(|c: String| c@)
                    + captures_from(ps_spec, ts_spec, i as int),
            decreases n - i,
        {
            proof {
                assert(ps_spec[i as int] == self.segments@[i as int].text());
                assert(ts@.map_values(|p: Vec<char>| p@)[i as int] == ts@[i as int]@);
                assert(self.segments@[i as int].wf());
            }
            let t = &ts[i];
            match &self.segments[i] {
                Segment::Literal(l) => {
                    if !chars_eq(l, t) {
                        proof {
                            assert(!seg_matches(ps_spec[i as int], ts_spec[i as int]));
                        }
                        return None;
                    }
                    proof {
                        assert(seg_matches(ps_spec[i as int], ts_spec[i as int]));
                        assert(captures_from(ps_spec, ts_spec, i as int) == captures_from(
                            ps_spec,
                            ts_spec,
                            i + 1,
                        ));
                    }
                },
                Segment::Placeholder(_) => {
                    proof {
                        assert(is_placeholder(ps_spec[i as int]));
                        assert(t@ == ts_spec[i as int]);
                    }
                    let tn: usize = t.len();
                    if tn == 0 {
                        proof {
                            assert(!is_word_seg(ts_spec[i as int]));
                        }
                        return None;
                    }
                    let mut k: usize = 0;
                    while k < tn
                        invariant
                            ps_spec == self.segs(),
                            ts_spec == split_slash(path@),
                            i < ps_spec.len(),
                            is_placeholder(ps_spec[i as int]),
                            t@ == ts_spec[i as int],
                            tn == t@.len(),
                            k <= tn,
                            forall|j: int| 0 <= j < k ==> is_word_char(#[trigger] t@[j]),
                        decreases tn - k,
                    {
                        if !is_word_char_exec(t[k]) {
                            proof {
                                assert(!is_word_char(t@[k as int]));
                                assert(!is_word_seg(ts_spec[i as int]));
                                assert(!seg_matches(ps_spec[i as int], ts_spec[i as int]));
                            }
                            return None;
                        }
                        k = k + 1;
                    }
                    proof {
                        assert(is_word_seg(ts_spec[i as int]));
                    }
                    let cap = string_from_chars(t);
                    proof {
                        assert(captures_from(ps_spec, ts_spec, i as int) == seq![
                            ts_spec[i as int],
                        ] + captures_from(ps_spec, ts_spec, i + 1));
                    }
                    caps.push(cap);
                    proof {
                        assert(captures_from(ps_spec, ts_spec, 0) =~= caps@.map_values(
                            |c: String| c@,
                        ) + captures_from(ps_spec, ts_spec, i + 1));
                    }
                },
            }
            i = i + 1;
        }
        proof {
            assert(segs_match(ps_spec, ts_spec));
            assert(captures_from(ps_spec, ts_spec, n as int) =~= Seq::<Seq<char>>::empty());
            assert(caps@.map_values(|c: String| c@) =~= captures_of(ps_spec, ts_spec));
            lemma_captures_count(ps_spec, ts_spec, 0);
        }
        Some(caps)
    }
}

/// Whether `path` matches the route pattern `route`.
pub fn path_matches_route(route: &str, path: &str) -> (r: bool)
    ensures
        r == route_matches(route@, path@),
{
    let m = Matcher::compile(route);
    m.matches(path).is_some()
}

/// What one pattern segment contributes to the regular-expression source: a
/// placeholder becomes the capture expression `(\w+)`, a literal stands as
/// itself.
pub open spec fn regex_piece(seg: Seq<char>) -> Seq<char> {
    if is_placeholder(seg) {
        seq!['(', '\\', 'w', '+', ')']
    } else {
        seg
    }
}

/// The pieces for the segments from position `i` on, joined with `/`.
pub open spec fn regex_body_from(segs: Seq<Seq<char>>, i: int) -> Seq<char>
    decreases segs.len() - i,
{
    if i < 0 || i >= segs.len() {
        Seq::empty()
    } else if i == segs.len() - 1 {
        regex_piece(segs[i])
    } else {
        regex_piece(segs[i]) + seq!['/'] + regex_body_from(segs, i + 1)
    }
}

/// The anchored regular-expression source equivalent to the route pattern.
pub open spec fn regex_str_of(route: Seq<char>) -> Seq<char> {
    seq!['^'] + regex_body_from(split_slash(route), 0) + seq!['$']
}

/// The regular-expression source for `route`: each `{name}` segment becomes
/// `(\w+)`, literal segments stand verbatim, and the whole is anchored with
/// `^` and `$`.
pub fn route_regex_source(route: &str) -> (r: String)
    ensures
        r@ == regex_str_of(route@),
{
    let v = chars_of(route);
    let parts = split_on_slash(&v);
    let ghost segs = split_slash(route@);
    let n: usize = parts.len();
    let mut out: Vec<char> = Vec::new();
    out.push('^');
    let mut i: usize = 0;
    proof {
        assert(out@ =~= seq!['^'] + Seq::<char>::empty());
    }
    while i < n
        invariant
            n == parts@.len(),
            parts@.map_values(|p: Vec<char>| p@) == segs,
            segs == split_slash(route@),
            i <= n,
            seq!['^'] + regex_body_from(segs, 0) =~= out@ + regex_body_from(segs, i as int),
        decreases n - i,
    {
        let p = &parts[i];
        proof {
            assert(parts@.map_values(|p: Vec<char>| p@)[i as int] == p@);
        }
        let is_ph = p.len() >= 2 && p[0] == '{' && p[p.len() - 1] == '}';
        if is_ph {
            push_str_chars(&mut out, "(\\w+)");
            proof {
                reveal_strlit("(\\w+)");
                assert("(\\w+)"@ =~= seq!['(', '\\', 'w', '+', ')']);
            }
        } else {
            push_chars(&mut out, p);
        }
        if i + 1 < n {
            out.push('/');
            proof {
                assert(regex_body_from(segs, i as int) == regex_piece(segs[i as int]) + seq!['/']
                    + regex_body_from(segs, i + 1));
                assert(seq!['^'] + regex_body_from(segs, 0) =~= out@ + regex_body_from(
                    segs,
                    i + 1,
                ));
            }
        } else {
            proof {
                assert(i == n - 1);
                assert(regex_body_from(segs, i as int) == regex_piece(segs[i as int]));
                assert(regex_body_from(segs, i + 1) =~= Seq::<char>::empty());
                assert(seq!['^'] + regex_body_from(segs, 0) =~= out@ + regex_body_from(
                    segs,
                    i + 1,
                ));
            }
        }
        i = i + 1;
    }
    out.push('$');
    proof {
        assert(regex_body_from(segs, n as int) =~= Seq::<char>::empty());
        assert(out@ =~= regex_str_of(route@));
    }
    string_from_chars(&out)
}

/// An error from compiling a route pattern: the synthesized matching
/// expression was rejected by the expression engine.
#[derive(Clone, Copy, Debug, PartialEq, Eq, Structural)]
pub struct CompileError;

#[verifier::external_type_specification]
#[verifier::external_body]
pub struct ExRegex(regex::Regex);

#[verifier::external_type_specification]
#[verifier::external_body]
pub struct ExRegexError(regex::Error);

/// Whether the regular-expression engine accepts this pattern source. The
/// engine's answer depends on the source alone: its syntax, and the default
/// compiled-size limit.
pub uninterp spec fn regex_accepts(pattern: Seq<char>) -> bool;

/// Relies on regex::Regex::new: compiles the pattern source, returning Ok
/// exactly when the engine accepts it.
#[verifier::external_body]
fn regex_new(pattern: &str) -> (r: Result<regex::Regex, regex::Error>)
    ensures
        (r is Ok) == regex_accepts(pattern@),
{
    regex::Regex::new(pattern)
}

/// Compiles the route pattern's anchored regular expression with the
/// expression engine, as the synthesized source that `route_regex_source`
/// describes.
pub fn generate_regex_from_route(route: &str) -> (r: Result<regex::Regex, CompileError>)
    ensures
        (r is Ok) == regex_accepts(regex_str_of(route@)),
{
    let source = route_regex_source(route);
    match regex_new(source.as_str()) {
        Ok(re) => Ok(re),
        Err(_) => Err(CompileError),
    }
}

} // verus!

