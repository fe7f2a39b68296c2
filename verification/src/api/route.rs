//! The request grammar: which operation a method and a path ask for.

use crate::text::same_text;
use vstd::prelude::*;

verus! {

/// The request methods that the grammar tells apart.
#[derive(Debug, Clone, Copy, PartialEq, Eq, Structural)]
pub enum Method {
    Get,
    Post,
    Other,
}

/// What a request asks for.
#[derive(Debug, Clone, Copy, PartialEq, Eq, Structural)]
pub enum Route {
    /// Store the context that the body describes.
    AddContext,
    /// Store the node that the body describes.
    AddNode,
    /// Store the edge that the body describes.
    AddEdge,
    /// Look up the context with this identity.
    GetContext(u32),
    /// Look up the node with this identity.
    GetNode(u32),
    /// Look up the earliest edge between these endpoints.
    GetEdge(u32, u32),
    /// A lookup whose identity is not a number that fits.
    InvalidId,
    /// An edge lookup with two segments of which one is not such a number.
    InvalidIds,
    /// An edge lookup that does not have exactly two segments.
    InvalidEdgePath,
    /// Anything else.
    NotFound,
}

/// `s` begins with `p`.
pub open spec fn starts_with(s: Seq<char>, p: Seq<char>) -> bool {
    p.len() <= s.len() && s.take(p.len() as int) == p
}

/// `s` without every leading repetition of `p`.
pub open spec fn strip_repeated(s: Seq<char>, p: Seq<char>) -> Seq<char>
    decreases s.len(),
{
    if p.len() > 0 && starts_with(s, p) {
        strip_repeated(s.skip(p.len() as int), p)
    } else {
        s
    }
}

/// `c` is one of the ten decimal digits.
pub open spec fn is_digit(c: char) -> bool {
    '0' <= c <= '9'
}

/// The number that one decimal digit stands for.
pub open spec fn digit_value(c: char) -> nat {
    if is_digit(c) {
        (c as u32 - '0' as u32) as nat
    } else {
        0
    }
}

/// Every character of `s` is a decimal digit.
pub open spec fn all_digits(s: Seq<char>) -> bool {
    forall|i: int| 0 <= i < s.len() ==> is_digit(#[trigger] s[i])
}

/// The number that a run of decimal digits spells.
pub open spec fn decimal_value(s: Seq<char>) -> nat
    decreases s.len(),
{
    if s.len() == 0 {
        0
    } else {
        decimal_value(s.drop_last()) * 10 + digit_value(s.last())
    }
}

/// The digits of a number: `s` without one leading plus sign.
pub open spec fn unsigned_part(s: Seq<char>) -> Seq<char> {
    if s.len() > 0 && s[0] == '+' {
        s.skip(1)
    } else {
        s
    }
}

/// The number that `s` spells: an optional plus sign and then one or more
/// decimal digits, nothing else, with a value that fits in 32 bits.
pub open spec fn parsed_u32(s: Seq<char>) -> Option<u32> {
    let digits = unsigned_part(s);
    if digits.len() > 0 && all_digits(digits) && decimal_value(digits) <= u32::MAX {
        Some(decimal_value(digits) as u32)
    } else {
        None
    }
}

/// Position `i` holds the one slash of `s`.
pub open spec fn is_only_slash(s: Seq<char>, i: int) -> bool {
    &&& 0 <= i < s.len()
    &&& s[i] == '/'
    &&& forall|j: int| 0 <= j < s.len() && j != i ==> #[trigger] s[j] != '/'
}

/// The two segments of `s`, where exactly one slash parts it.
pub open spec fn two_segments(s: Seq<char>) -> Option<(Seq<char>, Seq<char>)> {
    if exists|i: int| is_only_slash(s, i) {
        let i = choose|i: int| is_only_slash(s, i);
        Some((s.take(i), s.skip(i + 1)))
    } else {
        None
    }
}

/// What an edge lookup asks for, given the path behind its prefix.
pub open spec fn edge_route_of(rest: Seq<char>) -> Route {
    match two_segments(rest) {
        Some((from, to)) => match (parsed_u32(from), parsed_u32(to)) {
            (Some(f), Some(t)) => Route::GetEdge(f, t),
            _ => Route::InvalidIds,
        },
        None => Route::InvalidEdgePath,
    }
}

/// What the request with this method and path asks for. A write is named by
/// its whole path; a lookup by a prefix, which may repeat, and what follows it.
pub open spec fn route_of(method: Method, path: Seq<char>) -> Route {
    if method == Method::Post && path == "/add_context"@ {
        Route::AddContext
    } else if method == Method::Post && path == "/add_node"@ {
        Route::AddNode
    } else if method == Method::Post && path == "/add_edge"@ {
        Route::AddEdge
    } else if method == Method::Get && starts_with(path, "/get_context/"@) {
        match parsed_u32(strip_repeated(path, "/get_context/"@)) {
            Some(id) => Route::GetContext(id),
            None => Route::InvalidId,
        }
    } else if method == Method::Get && starts_with(path, "/get_node/"@) {
        match parsed_u32(strip_repeated(path, "/get_node/"@)) {
            Some(id) => Route::GetNode(id),
            None => Route::InvalidId,
        }
    } else if method == Method::Get && starts_with(path, "/get_edge/"@) {
        edge_route_of(strip_repeated(path, "/get_edge/"@))
    } else {
        Route::NotFound
    }
}

/// The characters of `s`, one by one.
pub fn chars_of(s: &str) -> (r: Vec<char>)
    ensures
        r@ == s@,
{
    let mut out: Vec<char> = Vec::new();
    for c in it: s.chars()
        invariant
            it.seq() == s@,
            out@ == s@.take(it.index()),
    {
        assert(c == s@[out@.len() as int]);
        out.push(c);
        assert(out@ =~= s@.take(out@.len() as int));
    }
    assert(s@.take(s@.len() as int) =~= s@);
    out
}

/// A run of digits spells at least what any of its beginnings spells.
pub proof fn lemma_decimal_value_grows(s: Seq<char>, n: int)
    requires
        0 <= n <= s.len(),
    ensures
        decimal_value(s.take(n)) <= decimal_value(s),
    decreases s.len(),
{
    if n == s.len() {
        assert(s.take(n) =~= s);
    } else {
        lemma_decimal_value_grows(s.drop_last(), n);
        assert(s.drop_last().take(n) =~= s.take(n));
    }
}

/// At most one position holds the one slash, and `two_segments` parts the
/// text there.
pub proof fn lemma_two_segments_at(s: Seq<char>, i: int)
    requires
        is_only_slash(s, i),
    ensures
        two_segments(s) == Some((s.take(i), s.skip(i + 1))),
{
    let c = choose|c: int| is_only_slash(s, c);
    assert(is_only_slash(s, c));
    if c != i {
        assert(s[c] != '/');
    }
}

/// Whether `s`, read from position `start`, begins with `p`.
fn begins_at(s: &Vec<char>, start: usize, p: &Vec<char>) -> (r: bool)
    requires
        start <= s.len(),
    ensures
        r == starts_with(s@.skip(start as int), p@),
{
    if p.len() > s.len() - start {
        return false;
    }
    let ghost rest = s@.skip(start as int);
    let mut i: usize = 0;
    while i < p.len()
        invariant
            rest == s@.skip(start as int),
            start + p.len() <= s.len(),
            i <= p.len(),
            forall|j: int| 0 <= j < i ==> rest[j] == p@[j],
        decreases p.len() - i,
    {
        if s[start + i] != p[i] {
            assert(rest.take(p.len() as int)[i as int] != p@[i as int]);
            return false;
        }
        i += 1;
    }
    assert(rest.take(p.len() as int) =~= p@);
    true
}

/// The position in `s` behind every leading repetition of `p`.
fn skip_repeated(s: &Vec<char>, p: &Vec<char>) -> (k: usize)
    requires
        p.len() > 0,
    ensures
        k <= s.len(),
        s@.skip(k as int) == strip_repeated(s@, p@),
{
    let mut k: usize = 0;
    assert(s@.skip(0) =~= s@);
    while begins_at(s, k, p)
        invariant
            p.len() > 0,
            k <= s.len(),
            strip_repeated(s@.skip(k as int), p@) == strip_repeated(s@, p@),
        decreases s.len() - k,
    {
        assert(s@.skip(k as int).skip(p.len() as int) =~= s@.skip(k + p.len()));
        k += p.len();
    }
    k
}

/// The number that the characters of `s` from `from` up to `to` spell.
fn parse_u32(s: &Vec<char>, from: usize, to: usize) -> (r: Option<u32>)
    requires
        from <= to <= s.len(),
    ensures
        r == parsed_u32(s@.subrange(from as int, to as int)),
{
    let ghost text = s@.subrange(from as int, to as int);
    let mut i: usize = from;
    if i < to && s[i] == '+' {
        i += 1;
    }
    let start: usize = i;
    let ghost digits = s@.subrange(start as int, to as int);
    assert(digits =~= unsigned_part(text));
    if start == to {
        return None;
    }
    let mut acc: u64 = 0;
    while i < to
        invariant
            from <= start <= i <= to <= s.len(),
            digits == s@.subrange(start as int, to as int),
            digits == unsigned_part(s@.subrange(from as int, to as int)),
            all_digits(digits.take(i - start)),
            acc == decimal_value(digits.take(i - start)),
            acc <= u32::MAX,
        decreases to - i,
    {
        let c = s[i];
        let ghost seen = digits.take(i - start);
        let ghost next = digits.take(i - start + 1);
        assert(next.drop_last() =~= seen);
        assert(next.last() == c);
        if c < '0' || c > '9' {
            assert(!is_digit(digits[i - start]));
            return None;
        }
        let d: u64 = (c as u32 - '0' as u32) as u64;
        acc = acc * 10 + d;
        assert(acc == decimal_value(next));
        if acc > u32::MAX as u64 {
            proof {
                lemma_decimal_value_grows(digits, i - start + 1);
            }
            return None;
        }
        assert(all_digits(next)) by {
            assert forall|j: int| 0 <= j < next.len() implies is_digit(#[trigger] next[j]) by {
                if j < i - start {
                    assert(seen[j] == next[j]);
                }
            }
        }
        i += 1;
    }
    assert(digits.take(to - start) =~= digits);
    Some(acc as u32)
}

/// The position of the one slash among the characters of `s` from `from` on.
fn only_slash(s: &Vec<char>, from: usize) -> (r: Option<usize>)
    requires
        from <= s.len(),
    ensures
        match r {
            Some(i) => from <= i < s.len() && is_only_slash(s@.skip(from as int), i - from),
            None => forall|i: int| !is_only_slash(s@.skip(from as int), i),
        },
{
    let ghost rest = s@.skip(from as int);
    let mut first: Option<usize> = None;
    let mut i: usize = from;
    while i < s.len()
        invariant
            rest == s@.skip(from as int),
            from <= i <= s.len(),
            match first {
                Some(f) => from <= f < i && rest[f - from] == '/' && forall|j: int|
                    0 <= j < i - from && j != f - from ==> #[trigger] rest[j] != '/',
                None => forall|j: int| 0 <= j < i - from ==> #[trigger] rest[j] != '/',
            },
        decreases s.len() - i,
    {
        if s[i] == '/' {
            match first {
                Some(f) => {
                    assert forall|k: int| !is_only_slash(rest, k) by {
                        if is_only_slash(rest, k) {
                            if k == f - from {
                                assert(rest[i - from] != '/');
                            } else {
                                assert(rest[f - from] != '/');
                            }
                        }
                    }
                    return None;
                },
                None => {
                    first = Some(i);
                },
            }
        }
        i += 1;
    }
    if first.is_none() {
        assert forall|k: int| !is_only_slash(rest, k) by {
            if is_only_slash(rest, k) {
                assert(rest[k] != '/');
            }
        }
    }
    first
}

/// What an edge lookup asks for, given the characters of `s` from `from` on.
fn edge_route(s: &Vec<char>, from: usize) -> (r: Route)
    requires
        from <= s.len(),
    ensures
        r == edge_route_of(s@.skip(from as int)),
{
    let ghost rest = s@.skip(from as int);
    match only_slash(s, from) {
        Some(i) => {
            proof {
                lemma_two_segments_at(rest, i - from);
                assert(rest.take(i - from) =~= s@.subrange(from as int, i as int));
                assert(rest.skip(i - from + 1) =~= s@.subrange(i + 1, s.len() as int));
            }
            let a = parse_u32(s, from, i);
            let b = parse_u32(s, i + 1, s.len());
            match (a, b) {
                (Some(f), Some(t)) => Route::GetEdge(f, t),
                _ => Route::InvalidIds,
            }
        },
        None => Route::InvalidEdgePath,
    }
}

/// What the request with this method and path asks for.
pub fn route(method: Method, path: &str) -> (r: Route)
    ensures
        r == route_of(method, path@),
{
    match method {
        Method::Post => {
            if same_text(path, "/add_context") {
                Route::AddContext
            } else if same_text(path, "/add_node") {
                Route::AddNode
            } else if same_text(path, "/add_edge") {
                Route::AddEdge
            } else {
                Route::NotFound
            }
        },
        Method::Get => {
            proof {
                reveal_strlit("/get_context/");
                reveal_strlit("/get_node/");
                reveal_strlit("/get_edge/");
            }
            let s = chars_of(path);
            assert(s@.skip(0) =~= s@);
            assert(s@.subrange(0, s.len() as int) =~= s@);
            let context_prefix = chars_of("/get_context/");
            let node_prefix = chars_of("/get_node/");
            let edge_prefix = chars_of("/get_edge/");
            if begins_at(&s, 0, &context_prefix) {
                let k = skip_repeated(&s, &context_prefix);
                assert(s@.subrange(k as int, s.len() as int) =~= s@.skip(k as int));
                match parse_u32(&s, k, s.len()) {
                    Some(id) => Route::GetContext(id),
                    None => Route::InvalidId,
                }
            } else if begins_at(&s, 0, &node_prefix) {
                let k = skip_repeated(&s, &node_prefix);
                assert(s@.subrange(k as int, s.len() as int) =~= s@.skip(k as int));
                match parse_u32(&s, k, s.len()) {
                    Some(id) => Route::GetNode(id),
                    None => Route::InvalidId,
                }
            } else if begins_at(&s, 0, &edge_prefix) {
                let k = skip_repeated(&s, &edge_prefix);
                edge_route(&s, k)
            } else {
                Route::NotFound
            }
        },
        Method::Other => Route::NotFound,
    }
}

} // verus!
