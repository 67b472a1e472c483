//! Parsing of the control request body: an ampersand-delimited sequence of
//! `key=value` pairs. Values are taken literally — deliberately, no
//! percent-decoding is applied — and a later occurrence of a key overrides
//! an earlier one. A segment without `=` records nothing.

use vstd::prelude::*;

verus! {

/// Parameters parsed from a request body.
pub struct Params {
    pairs: Vec<(String, String)>,
}

spec fn qs_has_key(s: Seq<(String, String)>, key: Seq<char>) -> bool
    decreases s.len(),
{
    s.len() > 0 && (s.last().0@ == key || qs_has_key(s.drop_last(), key))
}

spec fn qs_value(s: Seq<(String, String)>, key: Seq<char>) -> Seq<char>
    decreases s.len(),
{
    if s.len() == 0 {
        Seq::empty()
    } else if s.last().0@ == key {
        s.last().1@
    } else {
        qs_value(s.drop_last(), key)
    }
}

impl View for Params {
    type V = Map<Seq<char>, Seq<char>>;

    closed spec fn view(&self) -> Map<Seq<char>, Seq<char>> {
        Map::new(
            |key: Seq<char>| qs_has_key(self.pairs@, key),
            |key: Seq<char>| qs_value(self.pairs@, key),
        )
    }
}

impl Params {
    /// No parameters.
    pub fn new() -> (r: Params)
        ensures
            r@ == Map::<Seq<char>, Seq<char>>::empty(),
    {
        let r = Params { pairs: Vec::new() };
        proof {
            assert(r@ =~= Map::<Seq<char>, Seq<char>>::empty());
        }
        r
    }

    /// Record `value` under `key`, overriding any earlier occurrence.
    pub fn insert(&mut self, key: String, value: String)
        ensures
            final(self)@ == old(self)@.insert(key@, value@),
    {
        self.pairs.push((key, value));
        proof {
            assert(self.pairs@.drop_last() =~= old(self).pairs@);
            assert(self.pairs@.last() == (key, value));
            assert(self@ =~= old(self)@.insert(key@, value@));
        }
    }

    /// The value recorded for `key`, if any.
    pub fn get(&self, key: &str) -> (r: Option<&String>)
        ensures
            match r {
                Some(value) => self@.contains_key(key@) && value@ == self@[key@],
                None => !self@.contains_key(key@),
            },
    {
        let mut i: usize = self.pairs.len();
        proof {
            assert(self.pairs@.take(i as int) =~= self.pairs@);
        }
        while i > 0
            invariant
                i <= self.pairs@.len(),
                qs_has_key(self.pairs@, key@) == qs_has_key(self.pairs@.take(i as int), key@),
                qs_has_key(self.pairs@, key@) ==> qs_value(self.pairs@, key@) == qs_value(
                    self.pairs@.take(i as int),
                    key@,
                ),
            decreases i,
        {
            let pair = &self.pairs[i - 1];
            proof {
                assert(self.pairs@.take(i as int).drop_last() =~= self.pairs@.take(i as int - 1));
                assert(self.pairs@.take(i as int).last() == self.pairs@[i as int - 1]);
            }
            if crate::text::str_eq(pair.0.as_str(), key) {
                return Some(&pair.1);
            }
            i = i - 1;
        }
        proof {
            assert(!qs_has_key(self.pairs@.take(0), key@));
        }
        None
    }

    /// Whether a value was recorded for `key`.
    pub fn contains_key(&self, key: &str) -> (r: bool)
        ensures
            r == self@.contains_key(key@),
    {
        match self.get(key) {
            Some(_) => true,
            None => false,
        }
    }
}

/// Index of the first occurrence of `c` in `s`, or `s.len()` when absent.
pub open spec fn first_index_of(s: Seq<char>, c: char) -> int
    decreases s.len(),
{
    if s.len() == 0 {
        0
    } else if s[0] == c {
        0
    } else {
        1 + first_index_of(s.skip(1), c)
    }
}

/// `first_index_of` points at the first occurrence: nothing before it
/// matches, and it lies within the sequence exactly when a match exists.
pub proof fn lemma_first_index_of(s: Seq<char>, c: char)
    ensures
        0 <= first_index_of(s, c) <= s.len(),
        forall|j: int| 0 <= j < first_index_of(s, c) ==> s[j] != c,
        first_index_of(s, c) < s.len() ==> s[first_index_of(s, c)] == c,
    decreases s.len(),
{
    if s.len() == 0 {
    } else if s[0] == c {
    } else {
        lemma_first_index_of(s.skip(1), c);
        let fi = first_index_of(s, c);
        assert forall|j: int| 0 <= j < fi implies s[j] != c by {
            if j > 0 {
                assert(s.skip(1)[j - 1] == s[j]);
            }
        }
        if fi < s.len() {
            assert(s.skip(1)[fi - 1] == s[fi]);
        }
    }
}

/// A scan that found no `c` before `i`, and `c` (or the end) at `i`, found
/// the first occurrence.
proof fn lemma_first_index_of_is(s: Seq<char>, c: char, i: int)
    requires
        0 <= i <= s.len(),
        forall|j: int| 0 <= j < i ==> s[j] != c,
        i < s.len() ==> s[i] == c,
    ensures
        first_index_of(s, c) == i,
    decreases s.len(),
{
    if s.len() == 0 {
    } else if i == 0 {
    } else {
        assert(s[0] != c);
        assert forall|j: int| 0 <= j < i - 1 implies s.skip(1)[j] != c by {
            assert(s.skip(1)[j] == s[j + 1]);
        }
        if i - 1 < s.skip(1).len() {
            assert(s.skip(1)[i - 1] == s[i]);
        }
        lemma_first_index_of_is(s.skip(1), c, i - 1);
    }
}

/// One `&`-delimited segment folded into the parameters so far: the part up
/// to the first `=` is the key, the rest of the segment — taken literally —
/// is the value; a segment without `=` records nothing.
pub open spec fn record_segment(
    m: Map<Seq<char>, Seq<char>>,
    seg: Seq<char>,
) -> Map<Seq<char>, Seq<char>> {
    let eq = first_index_of(seg, '=');
    if eq < seg.len() {
        m.insert(seg.take(eq), seg.skip(eq + 1))
    } else {
        m
    }
}

/// The `&`-separated segments of `s` folded into `m`, left to right, so a
/// later occurrence of a key overrides an earlier one.
pub open spec fn parse_from(
    s: Seq<char>,
    m: Map<Seq<char>, Seq<char>>,
) -> Map<Seq<char>, Seq<char>>
    decreases s.len(),
    via parse_from_decreases
{
    let amp = first_index_of(s, '&');
    let folded = record_segment(m, s.take(amp));
    if amp == s.len() {
        folded
    } else {
        parse_from(s.skip(amp + 1), folded)
    }
}

#[via_fn]
proof fn parse_from_decreases(s: Seq<char>, m: Map<Seq<char>, Seq<char>>) {
    lemma_first_index_of(s, '&');
}

/// What a request body means as parameters.
pub open spec fn parse_query(s: Seq<char>) -> Map<Seq<char>, Seq<char>> {
    parse_from(s, Map::empty())
}

/// Parse a request body into parameters: `key=value` pairs separated by
/// `&`, values taken literally with no percent-decoding, later keys
/// overriding earlier ones.
pub fn parse_query_string(string: &str) -> (r: Params)
    ensures
        r@ == parse_query(string@),
{
    let n = string.unicode_len();
    let mut params = Params::new();
    let mut seg_start: usize = 0;
    proof {
        assert(string@.skip(0) =~= string@);
    }
    loop
        invariant
            n == string@.len(),
            seg_start <= n,
            parse_from(string@.skip(seg_start as int), params@) == parse_query(string@),
        ensures
            params@ == parse_query(string@),
        decreases n - seg_start,
    {
        let ghost start0 = seg_start as int;
        let ghost rem = string@.skip(start0);
        let ghost entering = params@;
        let mut i: usize = seg_start;
        while i < n && string.get_char(i) != '&'
            invariant
                n == string@.len(),
                seg_start <= i <= n,
                forall|t: int| seg_start <= t < i ==> string@[t] != '&',
            decreases n - i,
        {
            i = i + 1;
        }
        let mut j: usize = seg_start;
        while j < i && string.get_char(j) != '='
            invariant
                n == string@.len(),
                i <= n,
                seg_start <= j <= i,
                forall|t: int| seg_start <= t < j ==> string@[t] != '=',
            decreases i - j,
        {
            j = j + 1;
        }
        let ghost seg = rem.take(i - seg_start);
        proof {
            assert forall|t: int| 0 <= t < i - seg_start implies rem[t] != '&' by {
                assert(rem[t] == string@[seg_start + t]);
            }
            if i < n {
                assert(rem[i - seg_start] == string@[i as int]);
            }
            lemma_first_index_of_is(rem, '&', i - seg_start);
            assert forall|t: int| 0 <= t < j - seg_start implies seg[t] != '=' by {
                assert(seg[t] == string@[seg_start + t]);
            }
            if j < i {
                assert(seg[j - seg_start] == string@[j as int]);
            }
            lemma_first_index_of_is(seg, '=', j - seg_start);
        }
        if j < i {
            let key = string.substring_char(seg_start, j);
            let value = string.substring_char(j + 1, i);
            proof {
                assert(key@ =~= seg.take(j - seg_start));
                assert(value@ =~= seg.skip(j - seg_start + 1));
            }
            params.insert(key.to_owned(), value.to_owned());
        }
        proof {
            assert(params@ == record_segment(entering, seg));
            assert(parse_from(rem, entering) == if i - seg_start == rem.len() {
                params@
            } else {
                parse_from(rem.skip(i - seg_start + 1), params@)
            });
        }
        if i == n {
            break ;
        }
        seg_start = i + 1;
        proof {
            assert(string@.skip(seg_start as int) =~= rem.skip(i as int - start0 + 1));
        }
    }
    params
}

} // verus!
