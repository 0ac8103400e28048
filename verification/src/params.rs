//! Parsing of the object-store parameter surface: a comma-separated list of
//! `key=value` pairs. Empty items are skipped; every other item must hold a
//! `=` preceded by a key that is non-empty and not all whitespace.
use vstd::prelude::*;
use vstd::std_specs::hash::obeys_key_model;
use std::collections::HashMap;
use crate::errors::KvParseError;
use crate::text::{char_is_whitespace, is_whitespace_char};

verus! {

broadcast use vstd::seq::group_seq_axioms, vstd::std_specs::hash::group_hash_axioms;

/// Position of the first `sep` in `s`, or `s.len()` if there is none.
pub open spec fn find_first(s: Seq<char>, sep: char) -> int
    decreases s.len(),
{
    if s.len() == 0 {
        0
    } else if s[0] == sep {
        0
    } else {
        1 + find_first(s.drop_first(), sep)
    }
}

proof fn lemma_find_first_bounds(s: Seq<char>, sep: char)
    ensures
        0 <= find_first(s, sep) <= s.len(),
    decreases s.len(),
{
    if s.len() > 0 && s[0] != sep {
        lemma_find_first_bounds(s.drop_first(), sep);
    }
}

proof fn lemma_find_first_is(s: Seq<char>, sep: char, i: int)
    requires
        0 <= i <= s.len(),
        forall|k: int| 0 <= k < i ==> s[k] != sep,
        i < s.len() ==> s[i] == sep,
    ensures
        find_first(s, sep) == i,
    decreases s.len(),
{
    if s.len() == 0 {
    } else if s[0] == sep {
    } else {
        let t = s.drop_first();
        assert forall|k: int| 0 <= k < i - 1 implies t[k] != sep by {
            assert(t[k] == s[k + 1]);
        }
        if i < s.len() {
            assert(t[i - 1] == s[i]);
        }
        lemma_find_first_is(t, sep, i - 1);
    }
}

/// The pieces of `s` between occurrences of `sep`, in order; adjacent or
/// outer separators contribute empty pieces.
pub open spec fn split_on(s: Seq<char>, sep: char) -> Seq<Seq<char>>
    decreases s.len(),
    via split_on_dec
{
    let i = find_first(s, sep);
    if i == s.len() {
        seq![s]
    } else {
        seq![s.take(i)] + split_on(s.skip(i + 1), sep)
    }
}

#[via_fn]
proof fn split_on_dec(s: Seq<char>, sep: char) {
    lemma_find_first_bounds(s, sep);
}

/// What one non-empty `key=value` item denotes: the key before the first `=`
/// and the value after it. An item without `=`, or whose key is only
/// whitespace, is malformed; one whose key is empty misses its key.
pub open spec fn chunk_pair(c: Seq<char>) -> Result<(Seq<char>, Seq<char>), KvParseError> {
    let e = find_first(c, '=');
    if e == c.len() {
        Err(KvParseError::MalformedPair)
    } else if e == 0 {
        Err(KvParseError::MissingKey)
    } else if forall|k: int| 0 <= k < e ==> char_is_whitespace(#[trigger] c[k]) {
        Err(KvParseError::MalformedPair)
    } else {
        Ok((c.take(e), c.skip(e + 1)))
    }
}

/// The pairs a chunk list denotes: empty chunks are skipped, and the first
/// malformed chunk decides the error.
pub open spec fn pairs_of_chunks(chunks: Seq<Seq<char>>) -> Result<
    Seq<(Seq<char>, Seq<char>)>,
    KvParseError,
>
    decreases chunks.len(),
{
    if chunks.len() == 0 {
        Ok(Seq::empty())
    } else if chunks.first().len() == 0 {
        pairs_of_chunks(chunks.drop_first())
    } else {
        match chunk_pair(chunks.first()) {
            Err(e) => Err(e),
            Ok(p) => match pairs_of_chunks(chunks.drop_first()) {
                Err(e) => Err(e),
                Ok(rest) => Ok(seq![p] + rest),
            },
        }
    }
}

/// What a comma-separated `key=value` list denotes.
pub open spec fn spec_parse_pairs(s: Seq<char>) -> Result<
    Seq<(Seq<char>, Seq<char>)>,
    KvParseError,
> {
    pairs_of_chunks(split_on(s, ','))
}

/// The character sequences of a vector of string pairs.
pub open spec fn pairs_views(v: Seq<(String, String)>) -> Seq<(Seq<char>, Seq<char>)> {
    v.map_values(|p: (String, String)| (p.0@, p.1@))
}

/// Pairs already produced, prepended to what the rest of the input denotes.
spec fn combine(
    done: Seq<(Seq<char>, Seq<char>)>,
    rest: Result<Seq<(Seq<char>, Seq<char>)>, KvParseError>,
) -> Result<Seq<(Seq<char>, Seq<char>)>, KvParseError> {
    match rest {
        Ok(ps) => Ok(done + ps),
        Err(e) => Err(e),
    }
}

proof fn lemma_split_step(s: Seq<char>, start: int, j: int)
    requires
        0 <= start <= j <= s.len(),
        forall|k: int| start <= k < j ==> s[k] != ',',
        j < s.len() ==> s[j] == ',',
    ensures
        j == s.len() ==> split_on(s.skip(start), ',') == seq![s.subrange(start, j)],
        j < s.len() ==> split_on(s.skip(start), ',') == seq![s.subrange(start, j)] + split_on(
            s.skip(j + 1),
            ',',
        ),
{
    let suffix = s.skip(start);
    assert forall|k: int| 0 <= k < j - start implies suffix[k] != ',' by {
        assert(suffix[k] == s[k + start]);
    }
    if j < s.len() {
        assert(suffix[j - start] == s[j]);
    }
    lemma_find_first_is(suffix, ',', j - start);
    if j == s.len() {
        assert(suffix =~= s.subrange(start, j));
    } else {
        assert(suffix.take(j - start) =~= s.subrange(start, j));
        assert(suffix.skip(j - start + 1) =~= s.skip(j + 1));
    }
}

proof fn lemma_chunk_pair_at(s: Seq<char>, start: int, e: int, j: int)
    requires
        0 <= start < j <= s.len(),
        start <= e <= j,
        forall|k: int| start <= k < e ==> s[k] != '=',
        e < j ==> s[e] == '=',
    ensures
        e == j ==> chunk_pair(s.subrange(start, j)) == Err::<(Seq<char>, Seq<char>),
            KvParseError,
        >(KvParseError::MalformedPair),
        e == start && e < j ==> chunk_pair(s.subrange(start, j)) == Err::<(Seq<char>, Seq<char>),
            KvParseError,
        >(KvParseError::MissingKey),
        start < e < j && (forall|k: int| start <= k < e ==> char_is_whitespace(#[trigger] s[k]))
            ==> chunk_pair(s.subrange(start, j)) == Err::<(Seq<char>, Seq<char>), KvParseError>(
            KvParseError::MalformedPair,
        ),
        start < e < j && !(forall|k: int| start <= k < e ==> char_is_whitespace(#[trigger] s[k]))
            ==> chunk_pair(s.subrange(start, j)) == Ok::<(Seq<char>, Seq<char>), KvParseError>(
            (s.subrange(start, e), s.subrange(e + 1, j)),
        ),
{
    let c = s.subrange(start, j);
    assert forall|k: int| 0 <= k < e - start implies c[k] != '=' by {
        assert(c[k] == s[k + start]);
    }
    if e < j {
        assert(c[e - start] == s[e]);
    }
    lemma_find_first_is(c, '=', e - start);
    if start < e < j {
        assert forall|k: int| 0 <= k < e - start implies c[k] == s[k + start] by {}
        if forall|k: int| start <= k < e ==> char_is_whitespace(#[trigger] s[k]) {
            assert forall|k: int| 0 <= k < e - start implies char_is_whitespace(
                #[trigger] c[k],
            ) by {
                assert(c[k] == s[k + start]);
            }
        } else {
            let w = choose|k: int| start <= k < e && !char_is_whitespace(#[trigger] s[k]);
            assert(c[w - start] == s[w]);
            assert(!char_is_whitespace(c[w - start]));
        }
        if !(forall|k: int| start <= k < e ==> char_is_whitespace(#[trigger] s[k])) {
            assert(c.take(e - start) =~= s.subrange(start, e));
            assert(c.skip(e - start + 1) =~= s.subrange(e + 1, j));
        }
    }
}

proof fn lemma_pairs_first_err(chunks: Seq<Seq<char>>, e: KvParseError)
    requires
        chunks.len() >= 1,
        chunks[0].len() > 0,
        chunk_pair(chunks[0]) == Err::<(Seq<char>, Seq<char>), KvParseError>(e),
    ensures
        pairs_of_chunks(chunks) == Err::<Seq<(Seq<char>, Seq<char>)>, KvParseError>(e),
{
}

proof fn lemma_pairs_first_ok(chunks: Seq<Seq<char>>, p: (Seq<char>, Seq<char>))
    requires
        chunks.len() >= 1,
        chunks[0].len() > 0,
        chunk_pair(chunks[0]) == Ok::<(Seq<char>, Seq<char>), KvParseError>(p),
    ensures
        pairs_of_chunks(chunks) == combine(seq![p], pairs_of_chunks(chunks.drop_first())),
{
}

proof fn lemma_pairs_skip_empty(chunks: Seq<Seq<char>>)
    requires
        chunks.len() >= 1,
        chunks[0].len() == 0,
    ensures
        pairs_of_chunks(chunks) == pairs_of_chunks(chunks.drop_first()),
{
}

proof fn lemma_combine_assoc(
    done: Seq<(Seq<char>, Seq<char>)>,
    p: (Seq<char>, Seq<char>),
    rest: Result<Seq<(Seq<char>, Seq<char>)>, KvParseError>,
)
    ensures
        combine(done, combine(seq![p], rest)) == combine(done.push(p), rest),
{
    match rest {
        Ok(ps) => {
            assert(done + (seq![p] + ps) =~= done.push(p) + ps);
        },
        Err(_) => {},
    }
}

proof fn lemma_pairs_views_push(v: Seq<(String, String)>, p: (String, String))
    ensures
        pairs_views(v.push(p)) == pairs_views(v).push((p.0@, p.1@)),
{
    assert(pairs_views(v.push(p)) =~= pairs_views(v).push((p.0@, p.1@)));
}

/// Position of the first `sep` in `s[from..to]`, or `to` if there is none.
fn find_char(s: &str, from: usize, to: usize, sep: char) -> (j: usize)
    requires
        from <= to <= s@.len(),
    ensures
        from <= j <= to,
        forall|k: int| from <= k < j ==> s@[k] != sep,
        j < to ==> s@[j as int] == sep,
{
    let mut j = from;
    while j < to
        invariant
            from <= j <= to <= s@.len(),
            forall|k: int| from <= k < j ==> s@[k] != sep,
        decreases to - j,
    {
        if s.get_char(j) == sep {
            return j;
        }
        j += 1;
    }
    j
}

/// Whether `s[from..to]` is all whitespace.
fn all_whitespace(s: &str, from: usize, to: usize) -> (b: bool)
    requires
        from <= to <= s@.len(),
    ensures
        b == (forall|k: int| from <= k < to ==> char_is_whitespace(#[trigger] s@[k])),
{
    let mut j = from;
    while j < to
        invariant
            from <= j <= to <= s@.len(),
            forall|k: int| from <= k < j ==> char_is_whitespace(#[trigger] s@[k]),
        decreases to - j,
    {
        let c = s.get_char(j);
        if !is_whitespace_char(c) {
            proof {
                assert(!char_is_whitespace(s@[j as int]));
            }
            return false;
        }
        j += 1;
    }
    true
}

/// Parse a comma-separated `key=value` list into its pairs, in input order.
/// Empty items are skipped. The first malformed item decides the error: a
/// key that is empty before its `=` misses its key; an item without `=`, or
/// with an all-whitespace key, is malformed.
pub fn parse_pairs(s: &str) -> (r: Result<Vec<(String, String)>, KvParseError>)
    ensures
        match r {
            Ok(v) => spec_parse_pairs(s@) == Ok::<Seq<(Seq<char>, Seq<char>)>, KvParseError>(
                pairs_views(v@),
            ),
            Err(e) => spec_parse_pairs(s@) == Err::<Seq<(Seq<char>, Seq<char>)>, KvParseError>(e),
        },
{
    let n = s.unicode_len();
    let mut out: Vec<(String, String)> = Vec::new();
    let mut start: usize = 0;
    proof {
        assert(s@.skip(0) =~= s@);
        assert(pairs_views(out@) =~= Seq::<(Seq<char>, Seq<char>)>::empty());
        match spec_parse_pairs(s@) {
            Ok(ps) => {
                assert(pairs_views(out@) + ps =~= ps);
            },
            Err(_) => {},
        }
    }
    loop
        invariant_except_break
            start <= n == s@.len(),
            spec_parse_pairs(s@) == combine(
                pairs_views(out@),
                pairs_of_chunks(split_on(s@.skip(start as int), ',')),
            ),
        ensures
            spec_parse_pairs(s@) == Ok::<Seq<(Seq<char>, Seq<char>)>, KvParseError>(
                pairs_views(out@),
            ),
        decreases n - start,
    {
        let j = find_char(s, start, n, ',');
        proof {
            lemma_split_step(s@, start as int, j as int);
        }
        let ghost chunk = s@.subrange(start as int, j as int);
        let ghost chunks = split_on(s@.skip(start as int), ',');
        if j > start {
            let e = find_char(s, start, j, '=');
            proof {
                lemma_chunk_pair_at(s@, start as int, e as int, j as int);
                assert(chunks[0] == chunk);
            }
            if e == j {
                proof {
                    lemma_pairs_first_err(chunks, KvParseError::MalformedPair);
                }
                return Err(KvParseError::MalformedPair);
            }
            if e == start {
                proof {
                    lemma_pairs_first_err(chunks, KvParseError::MissingKey);
                }
                return Err(KvParseError::MissingKey);
            }
            if all_whitespace(s, start, e) {
                proof {
                    lemma_pairs_first_err(chunks, KvParseError::MalformedPair);
                }
                return Err(KvParseError::MalformedPair);
            }
            let key = s.substring_char(start, e).to_owned();
            let value = s.substring_char(e + 1, j).to_owned();
            let ghost p = (s@.subrange(start as int, e as int), s@.subrange(e + 1, j as int));
            let ghost prev_out = out@;
            let ghost done = pairs_views(out@);
            out.push((key, value));
            proof {
                lemma_pairs_first_ok(chunks, p);
                lemma_combine_assoc(done, p, pairs_of_chunks(chunks.drop_first()));
                lemma_pairs_views_push(prev_out, out@.last());
                assert((out@.last().0@, out@.last().1@) == p);
                assert(pairs_views(out@) == done.push(p));
            }
        } else {
            proof {
                assert(chunks[0] == chunk);
                lemma_pairs_skip_empty(chunks);
            }
        }
        if j == n {
            proof {
                assert(chunks.drop_first() =~= Seq::<Seq<char>>::empty());
                assert(pairs_views(out@) + Seq::<(Seq<char>, Seq<char>)>::empty() =~= pairs_views(
                    out@,
                ));
            }
            break;
        }
        proof {
            assert(chunks.drop_first() =~= split_on(s@.skip(j + 1), ','));
        }
        start = j + 1;
    }
    Ok(out)
}

/// The map a pair list denotes: each key maps to its value, a later
/// duplicate key replacing an earlier one.
pub open spec fn map_of_string_pairs(ps: Seq<(String, String)>) -> Map<String, String>
    decreases ps.len(),
{
    if ps.len() == 0 {
        Map::empty()
    } else {
        map_of_string_pairs(ps.drop_last()).insert(ps.last().0, ps.last().1)
    }
}

proof fn lemma_map_of_string_pairs_take_step(ps: Seq<(String, String)>, i: int)
    requires
        0 <= i < ps.len(),
    ensures
        map_of_string_pairs(ps.take(i + 1)) == map_of_string_pairs(ps.take(i)).insert(
            ps[i].0,
            ps[i].1,
        ),
{
    assert(ps.take(i + 1).drop_last() =~= ps.take(i));
    assert(ps.take(i + 1).last() == ps[i]);
}

/// Build the parameter map from parsed pairs, in order, a later duplicate
/// key replacing an earlier one. The content clause is conditional on the
/// hash-table key model for `String`, which std's `Eq` and `Hash` satisfy
/// but which the verifier's library leaves uninterpreted for non-integer
/// keys.
pub fn pairs_to_hashmap(pairs: &Vec<(String, String)>) -> (m: HashMap<String, String>)
    ensures
        obeys_key_model::<String>() ==> m@ == map_of_string_pairs(pairs@),
{
    let n = pairs.len();
    let mut m: HashMap<String, String> = HashMap::new();
    let mut i: usize = 0;
    while i < n
        invariant
            i <= n == pairs@.len(),
            obeys_key_model::<String>() ==> m@ == map_of_string_pairs(pairs@.take(i as int)),
        decreases n - i,
    {
        let k = pairs[i].0.clone();
        let v = pairs[i].1.clone();
        proof {
            lemma_map_of_string_pairs_take_step(pairs@, i as int);
        }
        m.insert(k, v);
        i += 1;
    }
    proof {
        assert(pairs@.take(n as int) =~= pairs@);
    }
    m
}

/// Parse a comma-separated `key=value` list into a map, as the object-store
/// configuration surface takes it. Exactly the malformed inputs of
/// [`parse_pairs`] are rejected, with the same error; on acceptance the map
/// holds exactly the parsed pairs, a later duplicate key replacing an
/// earlier one. That content clause is conditional on the hash-table key
/// model for `String` (see [`pairs_to_hashmap`]).
pub fn parse_hashmap(s: &str) -> (r: Result<HashMap<String, String>, KvParseError>)
    ensures
        match spec_parse_pairs(s@) {
            Ok(ps) => (r matches Ok(m) && (obeys_key_model::<String>()
                ==> exists|v: Seq<(String, String)>|
                    pairs_views(v) == ps && #[trigger] map_of_string_pairs(v) == m@)),
            Err(e) => r == Err::<HashMap<String, String>, KvParseError>(e),
        },
{
    match parse_pairs(s) {
        Ok(pairs) => {
            let m = pairs_to_hashmap(&pairs);
            proof {
                if obeys_key_model::<String>() {
                    assert(map_of_string_pairs(pairs@) == m@);
                }
            }
            Ok(m)
        },
        Err(e) => Err(e),
    }
}

} // verus!
