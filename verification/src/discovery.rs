//! Route discovery logic: mapping file names to language tags and route
//! paths, and fixing a deterministic order for the discovered routes.
//!
//! The directory walk itself is transport-side work; it hands this module the
//! path segments of each regular file relative to the configured root, and
//! gets back the route records, sorted and with route-path conflicts
//! resolved.

use vstd::prelude::*;
use vstd::multiset::Multiset;

verus! {

/// The closed set of languages a file extension can map to.
#[derive(Clone, Copy, PartialEq, Eq, Structural, Debug)]
pub enum Lang {
    JavaScript,
    TypeScript,
    Python,
    Ruby,
    Native,
}

/// Lexicographic order on character sequences, by unicode scalar value.
pub open spec fn lex_le(a: Seq<char>, b: Seq<char>) -> bool
    decreases a.len(),
{
    if a.len() == 0 {
        true
    } else if b.len() == 0 {
        false
    } else if a[0] < b[0] {
        true
    } else if b[0] < a[0] {
        false
    } else {
        lex_le(a.drop_first(), b.drop_first())
    }
}

/// The order is total: any two sequences compare one way or the other.
pub proof fn lemma_lex_le_total(a: Seq<char>, b: Seq<char>)
    ensures
        lex_le(a, b) || lex_le(b, a),
    decreases a.len(),
{
    if a.len() > 0 && b.len() > 0 && !(a[0] < b[0]) && !(b[0] < a[0]) {
        lemma_lex_le_total(a.drop_first(), b.drop_first());
    }
}

/// Two sequences below each other are equal.
pub proof fn lemma_lex_le_antisym(a: Seq<char>, b: Seq<char>)
    requires
        lex_le(a, b),
        lex_le(b, a),
    ensures
        a == b,
    decreases a.len(),
{
    if a.len() == 0 {
        assert(b.len() == 0);
        assert(a =~= b);
    } else {
        assert(b.len() > 0);
        assert(a[0] == b[0]);
        lemma_lex_le_antisym(a.drop_first(), b.drop_first());
        assert(a =~= seq![a[0]] + a.drop_first());
        assert(b =~= seq![b[0]] + b.drop_first());
        assert(a =~= b);
    }
}

/// The order is transitive.
pub proof fn lemma_lex_le_trans(a: Seq<char>, b: Seq<char>, c: Seq<char>)
    requires
        lex_le(a, b),
        lex_le(b, c),
    ensures
        lex_le(a, c),
    decreases a.len(),
{
    if a.len() == 0 {
        assert(lex_le(a, c));
    } else {
        assert(b.len() > 0);
        assert(c.len() > 0);
        if a[0] == b[0] && b[0] == c[0] {
            lemma_lex_le_trans(a.drop_first(), b.drop_first(), c.drop_first());
            assert(lex_le(a, c));
        } else {
            assert(a[0] < c[0]);
            assert(lex_le(a, c));
        }
    }
}

/// Compare two strings in the lexicographic order of their characters.
pub fn str_le(a: &str, b: &str) -> (r: bool)
    ensures
        r == lex_le(a@, b@),
{
    let a_len: usize = a.unicode_len();
    let b_len: usize = b.unicode_len();
    let mut i: usize = 0;
    proof {
        assert(a@.skip(0) =~= a@);
        assert(b@.skip(0) =~= b@);
    }
    loop
        invariant
            i <= a_len,
            i <= b_len,
            a_len == a@.len(),
            b_len == b@.len(),
            lex_le(a@, b@) == lex_le(a@.skip(i as int), b@.skip(i as int)),
        decreases a_len - i,
    {
        if i == a_len {
            proof {
                assert(a@.skip(i as int).len() == 0);
            }
            return true;
        }
        if i == b_len {
            proof {
                assert(b@.skip(i as int).len() == 0);
                assert(a@.skip(i as int).len() > 0);
            }
            return false;
        }
        let ca = a.get_char(i);
        let cb = b.get_char(i);
        proof {
            assert(a@.skip(i as int)[0] == a@[i as int]);
            assert(b@.skip(i as int)[0] == b@[i as int]);
        }
        if ca < cb {
            return true;
        }
        if cb < ca {
            return false;
        }
        proof {
            assert(a@.skip(i as int).drop_first() =~= a@.skip(i as int + 1));
            assert(b@.skip(i as int).drop_first() =~= b@.skip(i as int + 1));
        }
        i = i + 1;
    }
}

/// The position of the last `.` in a file name, if any.
pub open spec fn spec_last_dot(s: Seq<char>) -> Option<int>
    decreases s.len(),
{
    if s.len() == 0 {
        None
    } else if s.last() == '.' {
        Some(s.len() - 1)
    } else {
        spec_last_dot(s.drop_last())
    }
}

/// The extension of a file name: what follows the last dot, except that a
/// name without a dot, or whose only dot leads it, has none.
pub open spec fn spec_extension(s: Seq<char>) -> Option<Seq<char>> {
    match spec_last_dot(s) {
        None => None,
        Some(i) => if i == 0 {
            None
        } else {
            Some(s.skip(i + 1))
        },
    }
}

/// The stem of a file name: what precedes the extension, or the whole name
/// when there is no extension.
pub open spec fn spec_stem(s: Seq<char>) -> Seq<char> {
    match spec_last_dot(s) {
        None => s,
        Some(i) => if i == 0 {
            s
        } else {
            s.take(i)
        },
    }
}

/// Split a file name into its stem and its extension.
pub fn split_name(name: &str) -> (r: (String, Option<String>))
    ensures
        r.0@ == spec_stem(name@),
        r.1.deep_view() == spec_extension(name@),
{
    let len: usize = name.unicode_len();
    let mut dot: Option<usize> = None;
    let mut i: usize = 0;
    while i < len
        invariant
            i <= len,
            len == name@.len(),
            match dot {
                None => spec_last_dot(name@.take(i as int)) is None,
                Some(d) => d < i && spec_last_dot(name@.take(i as int)) == Some(d as int),
            },
        decreases len - i,
    {
        let c = name.get_char(i);
        proof {
            assert(name@.take(i as int + 1).drop_last() =~= name@.take(i as int));
            assert(name@.take(i as int + 1).last() == name@[i as int]);
        }
        if c == '.' {
            dot = Some(i);
        }
        i = i + 1;
    }
    proof {
        assert(name@.take(len as int) =~= name@);
    }
    match dot {
        None => (name.to_owned(), None),
        Some(d) => {
            if d == 0 {
                (name.to_owned(), None)
            } else {
                let stem = name.substring_char(0, d).to_owned();
                let ext = name.substring_char(d + 1, len).to_owned();
                proof {
                    assert(name@.subrange(0, d as int) =~= name@.take(d as int));
                    assert(name@.subrange(d as int + 1, len as int) =~= name@.skip(d as int + 1));
                }
                (stem, Some(ext))
            }
        },
    }
}

/// The language tag an extension maps to; unrecognized extensions map to
/// nothing and their files are left out of discovery.
pub open spec fn spec_lang_of_extension(e: Seq<char>) -> Option<Lang> {
    if e == "js"@ {
        Some(Lang::JavaScript)
    } else if e == "ts"@ {
        Some(Lang::TypeScript)
    } else if e == "py"@ {
        Some(Lang::Python)
    } else {
        None
    }
}

/// Map a file extension to its language tag.
pub fn lang_of_extension(e: &str) -> (r: Option<Lang>)
    ensures
        r == spec_lang_of_extension(e@),
{
    let ext = e.to_owned();
    if ext == String::from_str("js") {
        Some(Lang::JavaScript)
    } else if ext == String::from_str("ts") {
        Some(Lang::TypeScript)
    } else if ext == String::from_str("py") {
        Some(Lang::Python)
    } else {
        None
    }
}

/// The path segments of a route, each preceded by a slash.
pub open spec fn spec_segments(parts: Seq<Seq<char>>) -> Seq<char>
    decreases parts.len(),
{
    if parts.len() == 0 {
        Seq::empty()
    } else {
        spec_segments(parts.drop_last()) + seq!['/'] + parts.last()
    }
}

/// The route path of a file given by its path segments relative to the root:
/// `/api`, then each intermediate directory, then the file's stem.
pub open spec fn spec_route_path(parts: Seq<Seq<char>>) -> Seq<char>
    recommends
        parts.len() >= 1,
{
    "/api"@ + spec_segments(parts.drop_last()) + seq!['/'] + spec_stem(parts.last())
}

/// Derive the route path from a file's path segments relative to the root.
pub fn route_path_of(segments: &Vec<String>) -> (out: String)
    requires
        segments@.len() >= 1,
    ensures
        out@ == spec_route_path(segments.deep_view()),
{
    let mut out = String::from_str("/api");
    proof {
        reveal_strlit("/api");
    }
    let last: usize = segments.len() - 1;
    let mut i: usize = 0;
    while i < last
        invariant
            i <= last,
            last == segments.deep_view().len() - 1,
            segments.deep_view().len() == segments@.len(),
            out@ == "/api"@ + spec_segments(segments.deep_view().take(i as int)),
        decreases last - i,
    {
        out.append("/");
        out.append(segments[i].as_str());
        proof {
            reveal_strlit("/");
            let sv = segments.deep_view();
            assert(sv.take(i as int + 1).drop_last() =~= sv.take(i as int));
            assert(sv.take(i as int + 1).last() == sv[i as int]);
            assert(sv[i as int] == segments@[i as int]@);
            assert(out@ =~= "/api"@ + spec_segments(sv.take(i as int + 1)));
        }
        i = i + 1;
    }
    out.append("/");
    let split = split_name(segments[last].as_str());
    out.append(split.0.as_str());
    proof {
        reveal_strlit("/");
        let sv = segments.deep_view();
        assert(sv.take(last as int) =~= sv.drop_last());
        assert(sv.last() == segments@[last as int]@);
        assert(out@ =~= spec_route_path(sv));
    }
    out
}

/// One discovered route: the HTTP path it serves, the file that backs it,
/// and the file's language.
pub struct Route {
    pub route_path: String,
    pub file_path: String,
    pub lang: Lang,
}

/// The discovery order on routes: by route path, with the file path breaking
/// ties so that the order is a function of the discovered set alone.
pub open spec fn route_le(a: Route, b: Route) -> bool {
    if a.route_path@ == b.route_path@ {
        lex_le(a.file_path@, b.file_path@)
    } else {
        lex_le(a.route_path@, b.route_path@)
    }
}

/// Any two routes compare one way or the other.
pub proof fn lemma_route_le_total(a: Route, b: Route)
    ensures
        route_le(a, b) || route_le(b, a),
{
    if a.route_path@ == b.route_path@ {
        lemma_lex_le_total(a.file_path@, b.file_path@);
    } else {
        lemma_lex_le_total(a.route_path@, b.route_path@);
    }
}

/// The discovery order is transitive.
pub proof fn lemma_route_le_trans(a: Route, b: Route, c: Route)
    requires
        route_le(a, b),
        route_le(b, c),
    ensures
        route_le(a, c),
{
    if a.route_path@ == b.route_path@ && b.route_path@ == c.route_path@ {
        lemma_lex_le_trans(a.file_path@, b.file_path@, c.file_path@);
    } else if a.route_path@ == b.route_path@ {
        assert(lex_le(b.route_path@, c.route_path@));
    } else if b.route_path@ == c.route_path@ {
        assert(lex_le(a.route_path@, b.route_path@));
    } else {
        lemma_lex_le_trans(a.route_path@, b.route_path@, c.route_path@);
        if a.route_path@ == c.route_path@ {
            lemma_lex_le_antisym(a.route_path@, b.route_path@);
        }
    }
}

/// Compare two routes in the discovery order.
pub fn route_le_exec(a: &Route, b: &Route) -> (r: bool)
    ensures
        r == route_le(*a, *b),
{
    if a.route_path == b.route_path {
        str_le(a.file_path.as_str(), b.file_path.as_str())
    } else {
        str_le(a.route_path.as_str(), b.route_path.as_str())
    }
}

/// A sequence of routes in discovery order.
pub open spec fn routes_sorted(s: Seq<Route>) -> bool {
    forall|i: int, j: int| 0 <= i < j < s.len() ==> #[trigger] route_le(s[i], s[j])
}

/// Sort discovered routes into the discovery order. The result holds exactly
/// the given routes.
pub fn sort_routes(input: Vec<Route>) -> (out: Vec<Route>)
    ensures
        routes_sorted(out@),
        out@.to_multiset() == input@.to_multiset(),
{
    broadcast use vstd::seq_lib::group_to_multiset_ensures;

    let mut v = input;
    let mut out: Vec<Route> = Vec::new();
    proof {
        assert(out@.to_multiset().add(v@.to_multiset()) =~= v@.to_multiset());
    }
    while v.len() > 0
        invariant
            out@.to_multiset().add(v@.to_multiset()) == input@.to_multiset(),
            routes_sorted(out@),
            forall|i: int, j: int|
                0 <= i < out@.len() && 0 <= j < v@.len() ==> #[trigger] route_le(
                    out@[i],
                    v@[j],
                ),
        decreases v@.len(),
    {
        let ghost v0 = v@;
        let mut mi: usize = 0;
        let mut k: usize = 1;
        proof {
            lemma_route_le_total(v@[0], v@[0]);
        }
        while k < v.len()
            invariant
                v@ == v0,
                v@.len() > 0,
                mi < k,
                1 <= k <= v@.len(),
                forall|j: int| 0 <= j < k ==> route_le(v@[mi as int], #[trigger] v@[j]),
            decreases v@.len() - k,
        {
            if !route_le_exec(&v[mi], &v[k]) {
                proof {
                    lemma_route_le_total(v@[mi as int], v@[k as int]);
                    assert forall|j: int| 0 <= j < k + 1 implies route_le(
                        v@[k as int],
                        #[trigger] v@[j],
                    ) by {
                        if j == k as int {
                            lemma_route_le_total(v@[j], v@[j]);
                        } else {
                            lemma_route_le_trans(v@[k as int], v@[mi as int], v@[j]);
                        }
                    }
                }
                mi = k;
            }
            k = k + 1;
        }
        let ghost out0 = out@;
        let x = v.remove(mi);
        out.push(x);
        proof {
            v0.to_multiset_ensures();
            out0.to_multiset_ensures();
            assert(v0.remove(mi as int).to_multiset() =~= v0.to_multiset().remove(v0[mi as int]));
            assert(out0.push(x).to_multiset() =~= out0.to_multiset().insert(x));
            assert(v0.to_multiset().count(x) >= 1) by {
                assert(v0[mi as int] == x);
            }
            assert(out@.to_multiset().add(v@.to_multiset()) =~= input@.to_multiset());
            assert forall|j: int| 0 <= j < v@.len() implies route_le(x, #[trigger] v@[j]) by {
                assert(v@[j] == if j < mi as int {
                    v0[j]
                } else {
                    v0[j + 1]
                });
            }
            assert forall|i: int, j: int|
                0 <= i < out@.len() && 0 <= j < v@.len() implies #[trigger] route_le(
                out@[i],
                v@[j],
            ) by {
                if i < out0.len() {
                    assert(out@[i] == out0[i]);
                } else {
                    assert(out@[i] == x);
                }
            }
            assert(routes_sorted(out@)) by {
                assert forall|i: int, j: int| 0 <= i < j < out@.len() implies #[trigger] route_le(
                    out@[i],
                    out@[j],
                ) by {
                    if j < out0.len() {
                        assert(out@[i] == out0[i] && out@[j] == out0[j]);
                    } else {
                        assert(out@[j] == x && v0[mi as int] == x);
                    }
                }
            }
        }
    }
    proof {
        assert(v@.to_multiset() =~= Multiset::empty());
        assert(out@.to_multiset().add(v@.to_multiset()) =~= out@.to_multiset());
    }
    out
}


/// The routes that survive conflict resolution on a sorted sequence: of a
/// run of routes normalizing to one route path, only the last survives.
pub open spec fn spec_winners(s: Seq<Route>) -> Seq<Route>
    decreases s.len(),
{
    if s.len() <= 1 {
        s
    } else if s[0].route_path@ == s[1].route_path@ {
        spec_winners(s.drop_first())
    } else {
        seq![s[0]] + spec_winners(s.drop_first())
    }
}

/// The routes displaced by conflict resolution: every route that another,
/// later route with the same route path shadows.
pub open spec fn spec_conflicts(s: Seq<Route>) -> Seq<Route>
    decreases s.len(),
{
    if s.len() <= 1 {
        Seq::empty()
    } else if s[0].route_path@ == s[1].route_path@ {
        seq![s[0]] + spec_conflicts(s.drop_first())
    } else {
        spec_conflicts(s.drop_first())
    }
}

/// Resolve route-path conflicts on a sorted route list: the later route wins
/// and the displaced ones are handed back for reporting, never silently
/// dropped.
pub fn resolve_conflicts(routes: Vec<Route>) -> (r: (Vec<Route>, Vec<Route>))
    ensures
        r.0@ == spec_winners(routes@),
        r.1@ == spec_conflicts(routes@),
{
    let ghost s0 = routes@;
    let mut v = routes;
    let mut out: Vec<Route> = Vec::new();
    let mut losers: Vec<Route> = Vec::new();
    while v.len() > 0
        invariant
            out@ + spec_winners(v@) =~= spec_winners(s0),
            losers@ + spec_conflicts(v@) =~= spec_conflicts(s0),
        decreases v@.len(),
    {
        let ghost vpre = v@;
        let x = v.remove(0);
        proof {
            assert(vpre.remove(0) =~= vpre.drop_first());
        }
        if v.len() == 0 {
            out.push(x);
            proof {
                assert(spec_winners(vpre) =~= seq![x]);
                assert(out@ + spec_winners(v@) =~= spec_winners(s0));
                assert(losers@ + spec_conflicts(v@) =~= spec_conflicts(s0));
            }
        } else if x.route_path == v[0].route_path {
            losers.push(x);
            proof {
                assert(vpre[1] == v@[0]);
                assert(spec_winners(vpre) == spec_winners(v@));
                assert(spec_conflicts(vpre) =~= seq![x] + spec_conflicts(v@));
                assert(out@ + spec_winners(v@) =~= spec_winners(s0));
                assert(losers@ + spec_conflicts(v@) =~= spec_conflicts(s0));
            }
        } else {
            out.push(x);
            proof {
                assert(vpre[1] == v@[0]);
                assert(spec_winners(vpre) =~= seq![x] + spec_winners(v@));
                assert(spec_conflicts(vpre) == spec_conflicts(v@));
                assert(out@ + spec_winners(v@) =~= spec_winners(s0));
                assert(losers@ + spec_conflicts(v@) =~= spec_conflicts(s0));
            }
        }
    }
    proof {
        assert(out@ + spec_winners(v@) =~= out@);
        assert(losers@ + spec_conflicts(v@) =~= losers@);
    }
    (out, losers)
}

/// Build the route record for one discovered file, given its path segments
/// relative to the root and its full path. Files whose extension maps to no
/// language are left out, never an error.
pub fn make_route(segments: &Vec<String>, file_path: String) -> (r: Option<Route>)
    requires
        segments@.len() >= 1,
    ensures
        (r is Some <==> (match spec_extension(segments.deep_view().last()) {
            Some(e) => spec_lang_of_extension(e) is Some,
            None => false,
        })),
        (r matches Some(rt) ==> {
            &&& rt.route_path@ == spec_route_path(segments.deep_view())
            &&& rt.file_path == file_path
            &&& (spec_extension(segments.deep_view().last()) matches Some(e)
                && spec_lang_of_extension(e) == Some(rt.lang))
        }),
{
    let last: usize = segments.len() - 1;
    proof {
        assert(segments.deep_view().last() == segments@[last as int]@);
    }
    let split = split_name(segments[last].as_str());
    match split.1 {
        None => None,
        Some(ext) => {
            match lang_of_extension(ext.as_str()) {
                None => None,
                Some(lang) => {
                    let route_path = route_path_of(segments);
                    Some(Route { route_path, file_path, lang })
                },
            }
        },
    }
}


/// The discovery order never decreases the route path.
proof fn lemma_route_le_rp(a: Route, b: Route)
    requires
        route_le(a, b),
    ensures
        lex_le(a.route_path@, b.route_path@),
{
    if a.route_path@ == b.route_path@ {
        lemma_lex_le_total(a.route_path@, a.route_path@);
    }
}

/// Every route surviving conflict resolution stood in the input.
proof fn lemma_winners_membership(s: Seq<Route>)
    ensures
        forall|k: int|
            0 <= k < spec_winners(s).len() ==> s.contains(#[trigger] spec_winners(s)[k]),
    decreases s.len(),
{
    if s.len() <= 1 {
        assert forall|k: int|
            0 <= k < spec_winners(s).len() implies s.contains(#[trigger] spec_winners(s)[k]) by {
            assert(s[k] == spec_winners(s)[k]);
        }
    } else {
        lemma_winners_membership(s.drop_first());
        assert forall|k: int|
            0 <= k < spec_winners(s).len() implies s.contains(#[trigger] spec_winners(s)[k]) by {
            let w = spec_winners(s);
            let t = s.drop_first();
            if s[0].route_path@ == s[1].route_path@ {
                assert(w[k] == spec_winners(t)[k]);
                let i = choose|i: int| 0 <= i < t.len() && t[i] == w[k];
                assert(s[i + 1] == w[k]);
            } else {
                if k == 0 {
                    assert(w[0] == s[0]);
                } else {
                    assert(w[k] == spec_winners(t)[k - 1]);
                    let i = choose|i: int| 0 <= i < t.len() && t[i] == w[k];
                    assert(s[i + 1] == w[k]);
                }
            }
        }
    }
}

/// On a sorted route list, conflict resolution leaves a sorted list with one
/// route per route path: the uniqueness invariant of the served table.
pub proof fn lemma_winners_unique(s: Seq<Route>)
    requires
        routes_sorted(s),
    ensures
        routes_sorted(spec_winners(s)),
        forall|i: int, j: int|
            0 <= i < j < spec_winners(s).len() ==> (#[trigger] spec_winners(s)[i]).route_path@ != (
            #[trigger] spec_winners(s)[j]).route_path@,
    decreases s.len(),
{
    if s.len() <= 1 {
    } else {
        let t = s.drop_first();
        let w = spec_winners(s);
        assert forall|i: int, j: int| 0 <= i < j < t.len() implies #[trigger] route_le(
            t[i],
            t[j],
        ) by {
            assert(t[i] == s[i + 1] && t[j] == s[j + 1]);
        }
        lemma_winners_unique(t);
        lemma_winners_membership(t);
        if s[0].route_path@ == s[1].route_path@ {
        } else {
            assert forall|i: int, j: int| 0 <= i < j < w.len() implies #[trigger] route_le(
                w[i],
                w[j],
            ) by {
                if i == 0 {
                    assert(w[j] == spec_winners(t)[j - 1]);
                    let m = choose|m: int| 0 <= m < t.len() && t[m] == w[j];
                    if m == 0 {
                        assert(route_le(s[0], s[1]));
                    } else {
                        lemma_route_le_trans(s[0], s[1], t[m]);
                    }
                } else {
                    assert(w[i] == spec_winners(t)[i - 1] && w[j] == spec_winners(t)[j - 1]);
                }
            }
            assert forall|i: int, j: int|
                0 <= i < j < w.len() implies (#[trigger] w[i]).route_path@ != (
            #[trigger] w[j]).route_path@ by {
                if i == 0 {
                    assert(w[j] == spec_winners(t)[j - 1]);
                    let m = choose|m: int| 0 <= m < t.len() && t[m] == w[j];
                    if w[0].route_path@ == w[j].route_path@ {
                        lemma_route_le_rp(s[0], s[1]);
                        if m == 0 {
                        } else {
                            assert(route_le(t[0], t[m]));
                            lemma_route_le_rp(t[0], t[m]);
                            assert(t[0] == s[1]);
                            assert(t[m].route_path@ == s[0].route_path@);
                            assert(lex_le(s[1].route_path@, s[0].route_path@));
                            lemma_lex_le_antisym(s[0].route_path@, s[1].route_path@);
                        }
                    }
                } else {
                    assert(w[i] == spec_winners(t)[i - 1] && w[j] == spec_winners(t)[j - 1]);
                }
            }
        }
    }
}

/// No two routes share both their route path and their file path. Discovery
/// produces one route per file, so its output always satisfies this.
pub open spec fn routes_distinct_keys(s: Seq<Route>) -> bool {
    forall|i: int, j: int|
        0 <= i < j < s.len() ==> !((#[trigger] s[i]).route_path@ == (#[trigger] s[j]).route_path@
            && s[i].file_path@ == s[j].file_path@)
}

/// Discovery is deterministic: two sorted arrangements of one set of routes
/// are identical, so repeated discovery over a fixed tree yields the same
/// route list, and the same winners after conflict resolution.
pub proof fn lemma_sorted_routes_deterministic(a: Seq<Route>, b: Seq<Route>)
    requires
        routes_sorted(a),
        routes_sorted(b),
        a.to_multiset() == b.to_multiset(),
        routes_distinct_keys(a),
    ensures
        a == b,
    decreases a.len(),
{
    broadcast use vstd::seq_lib::group_to_multiset_ensures;

    a.to_multiset_ensures();
    b.to_multiset_ensures();
    if a.len() == 0 {
        assert(b.to_multiset().len() == 0);
        assert(a =~= b);
    } else {
        assert(b.len() == a.len());
        assert(b.contains(b[0]));
        assert(a.to_multiset().count(b[0]) > 0);
        assert(a.contains(b[0]));
        let i = choose|i: int| 0 <= i < a.len() && a[i] == b[0];
        assert(a.contains(a[0]));
        assert(b.to_multiset().count(a[0]) > 0);
        assert(b.contains(a[0]));
        let j = choose|j: int| 0 <= j < b.len() && b[j] == a[0];
        if a[0] != b[0] {
            assert(i != 0 && j != 0);
            assert(route_le(a[0], a[i]));
            assert(route_le(b[0], b[j]));
            let x = a[0];
            let y = b[0];
            assert(route_le(x, y) && route_le(y, x));
            if x.route_path@ == y.route_path@ {
                lemma_lex_le_antisym(x.file_path@, y.file_path@);
            } else {
                lemma_lex_le_antisym(x.route_path@, y.route_path@);
            }
            assert(x.route_path@ == y.route_path@ && x.file_path@ == y.file_path@);
            assert(false);
        }
        let ta = a.drop_first();
        let tb = b.drop_first();
        assert(a.remove(0) =~= ta);
        assert(b.remove(0) =~= tb);
        assert(ta.to_multiset() =~= a.to_multiset().remove(a[0]));
        assert(tb.to_multiset() =~= b.to_multiset().remove(b[0]));
        assert(ta.to_multiset() == tb.to_multiset());
        assert forall|p: int, q: int| 0 <= p < q < ta.len() implies #[trigger] route_le(
            ta[p],
            ta[q],
        ) by {
            assert(ta[p] == a[p + 1] && ta[q] == a[q + 1]);
        }
        assert forall|p: int, q: int| 0 <= p < q < tb.len() implies #[trigger] route_le(
            tb[p],
            tb[q],
        ) by {
            assert(tb[p] == b[p + 1] && tb[q] == b[q + 1]);
        }
        assert forall|p: int, q: int|
            0 <= p < q < ta.len() implies !((#[trigger] ta[p]).route_path@ == (
        #[trigger] ta[q]).route_path@ && ta[p].file_path@ == ta[q].file_path@) by {
            assert(ta[p] == a[p + 1] && ta[q] == a[q + 1]);
        }
        lemma_sorted_routes_deterministic(ta, tb);
        assert forall|k: int| 0 <= k < a.len() implies a[k] == b[k] by {
            if k > 0 {
                assert(a[k] == ta[k - 1]);
                assert(b[k] == tb[k - 1]);
            }
        }
        assert(a =~= b);
    }
}


/// Some winner serves this route's path, backed by a file no earlier in the
/// discovery order than this route's own.
pub open spec fn served_by(w: Seq<Route>, r: Route) -> bool {
    exists|k: int|
        0 <= k < w.len() && (#[trigger] w[k]).route_path@ == r.route_path@ && lex_le(
            r.file_path@,
            w[k].file_path@,
        )
}

/// Conflict resolution drops no route path, and of the candidates for one
/// path the last in discovery order — the greatest file path — wins.
pub proof fn lemma_winners_later_wins(s: Seq<Route>)
    requires
        routes_sorted(s),
    ensures
        forall|i: int| 0 <= i < s.len() ==> served_by(spec_winners(s), #[trigger] s[i]),
    decreases s.len(),
{
    let w = spec_winners(s);
    if s.len() <= 1 {
        assert forall|i: int| 0 <= i < s.len() implies served_by(w, #[trigger] s[i]) by {
            lemma_lex_le_total(s[i].file_path@, s[i].file_path@);
            assert(w[i].route_path@ == s[i].route_path@ && lex_le(
                s[i].file_path@,
                w[i].file_path@,
            ));
        }
    } else {
        let t = s.drop_first();
        assert forall|p: int, q: int| 0 <= p < q < t.len() implies #[trigger] route_le(
            t[p],
            t[q],
        ) by {
            assert(t[p] == s[p + 1] && t[q] == s[q + 1]);
        }
        lemma_winners_later_wins(t);
        if s[0].route_path@ == s[1].route_path@ {
            assert forall|i: int| 0 <= i < s.len() implies served_by(w, #[trigger] s[i]) by {
                if i == 0 {
                    assert(served_by(spec_winners(t), t[0]));
                    let k = choose|k: int|
                        0 <= k < spec_winners(t).len() && (
                        #[trigger] spec_winners(t)[k]).route_path@ == t[0].route_path@ && lex_le(
                            t[0].file_path@,
                            spec_winners(t)[k].file_path@,
                        );
                    assert(route_le(s[0], s[1]));
                    assert(lex_le(s[0].file_path@, s[1].file_path@));
                    lemma_lex_le_trans(
                        s[0].file_path@,
                        s[1].file_path@,
                        spec_winners(t)[k].file_path@,
                    );
                    assert(w[k].route_path@ == s[0].route_path@ && lex_le(
                        s[0].file_path@,
                        w[k].file_path@,
                    ));
                } else {
                    assert(served_by(spec_winners(t), t[i - 1]));
                    assert(t[i - 1] == s[i]);
                }
            }
        } else {
            assert forall|i: int| 0 <= i < s.len() implies served_by(w, #[trigger] s[i]) by {
                if i == 0 {
                    lemma_lex_le_total(s[0].file_path@, s[0].file_path@);
                    assert(w[0].route_path@ == s[0].route_path@ && lex_le(
                        s[0].file_path@,
                        w[0].file_path@,
                    ));
                } else {
                    assert(served_by(spec_winners(t), t[i - 1]));
                    let k = choose|k: int|
                        0 <= k < spec_winners(t).len() && (
                        #[trigger] spec_winners(t)[k]).route_path@ == t[i - 1].route_path@
                            && lex_le(t[i - 1].file_path@, spec_winners(t)[k].file_path@);
                    assert(w[k + 1] == spec_winners(t)[k]);
                    assert(t[i - 1] == s[i]);
                    assert(w[k + 1].route_path@ == s[i].route_path@ && lex_le(
                        s[i].file_path@,
                        w[k + 1].file_path@,
                    ));
                }
            }
        }
    }
}

} // verus!
