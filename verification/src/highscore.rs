//! The persisted top-score list: keep the ten best scores in descending
//! order, and encode them as a comma-joined decimal string for the
//! key-value store (the storage itself lives outside this crate).

use vstd::prelude::*;
use vstd::multiset::Multiset;
use vstd::seq_lib::lemma_multiset_commutative;

verus! {

/// At most this many scores are kept.
pub const MAX_HIGHSCORES: usize = 10;

/// Descending order: no later element exceeds an earlier one.
pub open spec fn sorted_desc(s: Seq<u32>) -> bool {
    forall|i: int, j: int| 0 <= i <= j < s.len() ==> s[i] >= s[j]
}

/// The decimal digits of n, most significant first, as ASCII bytes.
pub open spec fn dec_digits(n: nat) -> Seq<u8>
    decreases n,
{
    if n < 10 {
        seq![(48 + n) as u8]
    } else {
        dec_digits(n / 10).push((48 + n % 10) as u8)
    }
}

/// The wire form of a score list: each value in decimal, values joined by
/// a single comma, no trailing delimiter; the empty list is the empty
/// string.
pub open spec fn spec_serialize(scores: Seq<u32>) -> Seq<u8>
    decreases scores.len(),
{
    if scores.len() == 0 {
        Seq::<u8>::empty()
    } else if scores.len() == 1 {
        dec_digits(scores[0] as nat)
    } else {
        dec_digits(scores[0] as nat) + seq![44u8] + spec_serialize(scores.skip(1))
    }
}

/// The top-score list.
#[derive(Debug, Clone)]
pub struct Highscores {
    pub scores: Vec<u32>,
}

/// The decimal digits of one value, most significant first.
fn u32_digits(n: u32) -> (r: Vec<u8>)
    ensures
        r@ == dec_digits(n as nat),
    decreases n,
{
    if n < 10 {
        let mut v: Vec<u8> = Vec::new();
        v.push(48 + n as u8);
        proof {
            assert(v@ =~= dec_digits(n as nat));
        }
        v
    } else {
        let mut v = u32_digits(n / 10);
        v.push(48 + (n % 10) as u8);
        v
    }
}

/// Appending one more value to the wire form appends a comma and its
/// digits (or only its digits to the empty form).
proof fn lemma_serialize_snoc(l: Seq<u32>, v: u32)
    ensures
        l.len() == 0 ==> spec_serialize(l.push(v)) == dec_digits(v as nat),
        l.len() > 0 ==> spec_serialize(l.push(v)) == spec_serialize(l) + seq![44u8] + dec_digits(
            v as nat,
        ),
    decreases l.len(),
{
    if l.len() == 0 {
        assert(l.push(v) =~= seq![v]);
    } else if l.len() == 1 {
        assert(l.push(v).skip(1) =~= seq![v]);
        assert(spec_serialize(seq![v]) == dec_digits(v as nat));
    } else {
        lemma_serialize_snoc(l.skip(1), v);
        assert(l.push(v).skip(1) =~= l.skip(1).push(v));
        assert(spec_serialize(l.push(v)) == dec_digits(l[0] as nat) + seq![44u8] + spec_serialize(
            l.skip(1).push(v),
        ));
        assert(spec_serialize(l) + seq![44u8] + dec_digits(v as nat) =~= dec_digits(l[0] as nat)
            + seq![44u8] + (spec_serialize(l.skip(1)) + seq![44u8] + dec_digits(v as nat)));
    }
}

impl Highscores {
    pub fn new() -> (r: Highscores)
        ensures
            r.scores@ == Seq::<u32>::empty(),
    {
        Highscores { scores: Vec::new() }
    }

    /// Record one more score: the list becomes the ten largest of the old
    /// scores and the new one, in descending order.
    pub fn add_score(&mut self, new_score: u32)
        ensures
            exists|full: Seq<u32>|
                #![auto]
                full.to_multiset() == old(self).scores@.push(new_score).to_multiset()
                    && sorted_desc(full) && full.len() == old(self).scores@.len() + 1
                    && final(self).scores@ == (if full.len() <= 10 {
                    full
                } else {
                    full.subrange(0, 10)
                }),
    {
        self.scores.push(new_score);
        let sorted = sort_desc_vec(&self.scores);
        let ghost full: Seq<u32> = sorted@;
        self.scores = sorted;
        self.scores.truncate(MAX_HIGHSCORES);
        proof {
            assert(full.to_multiset() == old(self).scores@.push(new_score).to_multiset());
        }
    }

    /// The wire form of this list: comma-joined decimal values.
    pub fn serialize(&self) -> (r: Vec<u8>)
        ensures
            r@ == spec_serialize(self.scores@),
    {
        let mut out: Vec<u8> = Vec::new();
        let mut i: usize = 0;
        proof {
            assert(self.scores@.take(0) =~= Seq::<u32>::empty());
            assert(out@ =~= spec_serialize(self.scores@.take(0)));
        }
        while i < self.scores.len()
            invariant
                i <= self.scores@.len(),
                out@ == spec_serialize(self.scores@.take(i as int)),
            decreases self.scores@.len() - i,
        {
            let ghost prefix: Seq<u32> = self.scores@.take(i as int);
            if i > 0 {
                out.push(44u8);
            }
            let mut digits = u32_digits(self.scores[i]);
            let ghost ds: Seq<u8> = digits@;
            out.append(&mut digits);
            proof {
                lemma_serialize_snoc(prefix, self.scores@[i as int]);
                assert(self.scores@.take(i + 1) =~= prefix.push(self.scores@[i as int]));
                if i == 0 {
                    assert(out@ =~= dec_digits(self.scores@[0] as nat));
                } else {
                    assert(out@ =~= spec_serialize(prefix) + seq![44u8] + ds);
                }
            }
            i = i + 1;
        }
        proof {
            assert(self.scores@.take(self.scores@.len() as int) =~= self.scores@);
        }
        out
    }
}

/// An ASCII decimal digit.
pub open spec fn is_digit(b: u8) -> bool {
    48 <= b <= 57
}

/// The value of a digit string, read in decimal, most significant digit
/// first.
pub open spec fn dec_value(s: Seq<u8>) -> int
    decreases s.len(),
{
    if s.len() == 0 {
        0
    } else {
        dec_value(s.drop_last()) * 10 + (s.last() - 48)
    }
}

/// A well-formed field of the wire form: non-empty, decimal digits only,
/// and a value that fits the score type.
pub open spec fn valid_field(s: Seq<u8>) -> bool {
    &&& s.len() > 0
    &&& forall|i: int| 0 <= i < s.len() ==> is_digit(#[trigger] s[i])
    &&& dec_value(s) <= u32::MAX
}

/// The position of the first comma, or the length when there is none.
pub open spec fn find_comma(s: Seq<u8>) -> nat
    decreases s.len(),
{
    if s.len() == 0 {
        0
    } else if s[0] == 44 {
        0
    } else {
        1 + find_comma(s.skip(1))
    }
}

/// The first comma is a comma, and nothing before it is one.
pub proof fn lemma_find_comma(s: Seq<u8>)
    ensures
        find_comma(s) <= s.len(),
        find_comma(s) < s.len() ==> s[find_comma(s) as int] == 44,
        forall|i: int| 0 <= i < find_comma(s) ==> s[i] != 44,
    decreases s.len(),
{
    if s.len() == 0 {
    } else if s[0] == 44 {
    } else {
        lemma_find_comma(s.skip(1));
        let f = find_comma(s);
        assert forall|i: int| 0 <= i < f implies s[i] != 44 by {
            if i >= 1 {
                assert(s.skip(1)[i - 1] == s[i]);
            }
        }
        if f < s.len() {
            assert(s.skip(1)[f - 1] == s[f as int]);
        }
    }
}

/// The scores encoded in a non-empty wire string: fields split on single
/// commas, each field read as a decimal value; nothing if any field is
/// malformed.
pub open spec fn spec_parse_scores(s: Seq<u8>) -> Option<Seq<u32>>
    decreases s.len(),
{
    let k = find_comma(s);
    if k >= s.len() {
        if valid_field(s) {
            Some(seq![dec_value(s) as u32])
        } else {
            None
        }
    } else {
        if !valid_field(s.take(k as int)) {
            None
        } else {
            match spec_parse_scores(s.skip(k as int + 1)) {
                Some(rest) => Some(seq![dec_value(s.take(k as int)) as u32] + rest),
                None => None,
            }
        }
    }
}

/// A digit string with digits only has a non-negative value.
proof fn lemma_dec_value_nonneg(s: Seq<u8>)
    requires
        forall|i: int| 0 <= i < s.len() ==> is_digit(#[trigger] s[i]),
    ensures
        dec_value(s) >= 0,
    decreases s.len(),
{
    if s.len() > 0 {
        lemma_dec_value_nonneg(s.drop_last());
    }
}

/// Reading more digits never shrinks the value.
proof fn lemma_dec_value_mono(s: Seq<u8>, i: int)
    requires
        forall|j: int| 0 <= j < s.len() ==> is_digit(#[trigger] s[j]),
        0 <= i <= s.len(),
    ensures
        dec_value(s.take(i)) <= dec_value(s),
    decreases s.len() - i,
{
    if i == s.len() {
        assert(s.take(i) =~= s);
    } else {
        lemma_dec_value_mono(s, i + 1);
        assert(s.take(i + 1).drop_last() =~= s.take(i));
        assert forall|j: int| 0 <= j < s.take(i).len() implies is_digit(#[trigger] s.take(i)[j]) by {
            assert(s.take(i)[j] == s[j]);
        }
        lemma_dec_value_nonneg(s.take(i));
        assert(s.take(i + 1).last() == s[i]);
        assert(dec_value(s.take(i + 1)) == dec_value(s.take(i)) * 10 + (s[i] - 48));
    }
}

/// A parse failure marker: some field of the stored string was not a
/// plain decimal value.
#[derive(Clone, Copy, PartialEq, Eq, Structural, Debug)]
pub struct ParseScoreError;

/// Read one decimal field of the byte string; nothing when the field is
/// empty, holds a non-digit, or overflows the score type.
fn parse_u32_field(s: &[u8], from: usize, to: usize) -> (r: Option<u32>)
    requires
        from <= to <= s@.len(),
    ensures
        match r {
            Some(v) => valid_field(s@.subrange(from as int, to as int)) && v == dec_value(
                s@.subrange(from as int, to as int),
            ),
            None => !valid_field(s@.subrange(from as int, to as int)),
        },
{
    let ghost sub: Seq<u8> = s@.subrange(from as int, to as int);
    if from == to {
        return None;
    }
    let mut val: u32 = 0;
    let mut i = from;
    while i < to
        invariant
            from <= i <= to <= s@.len(),
            sub == s@.subrange(from as int, to as int),
            forall|j: int| from <= j < i ==> is_digit(#[trigger] s@[j]),
            val == dec_value(s@.subrange(from as int, i as int)),
        decreases to - i,
    {
        let b = s[i];
        if b < 48 || b > 57 {
            proof {
                assert(sub[i - from] == s@[i as int]);
            }
            return None;
        }
        let d = (b - 48) as u32;
        let nv: u64 = val as u64 * 10 + d as u64;
        proof {
            assert(s@.subrange(from as int, i + 1).drop_last() =~= s@.subrange(
                from as int,
                i as int,
            ));
            assert(s@.subrange(from as int, i + 1).last() == s@[i as int]);
        }
        if nv > 0xffff_ffffu64 {
            proof {
                if valid_field(sub) {
                    assert forall|j: int| 0 <= j < sub.len() implies is_digit(
                        #[trigger] sub[j],
                    ) by {}
                    assert(sub.take(i + 1 - from) =~= s@.subrange(from as int, i + 1));
                    lemma_dec_value_mono(sub, i + 1 - from);
                    assert(dec_value(sub) >= dec_value(s@.subrange(from as int, i + 1)));
                    assert(false);
                }
            }
            return None;
        }
        val = nv as u32;
        i = i + 1;
    }
    proof {
        assert(s@.subrange(from as int, to as int) =~= sub);
        assert forall|j: int| 0 <= j < sub.len() implies is_digit(#[trigger] sub[j]) by {
            assert(sub[j] == s@[from + j]);
        }
    }
    Some(val)
}

/// Parse the fields of the byte string from the given position onward.
fn parse_fields(s: &[u8], start: usize) -> (r: Option<Vec<u32>>)
    requires
        start <= s@.len(),
    ensures
        match spec_parse_scores(s@.skip(start as int)) {
            Some(l) => r matches Some(v) && v@ == l,
            None => r is None,
        },
    decreases s@.len() - start,
{
    let ghost t: Seq<u8> = s@.skip(start as int);
    let mut k = start;
    while k < s.len() && s[k] != 44
        invariant
            start <= k <= s@.len(),
            forall|j: int| start <= j < k ==> s@[j] != 44,
        decreases s@.len() - k,
    {
        k = k + 1;
    }
    proof {
        lemma_find_comma(t);
        let f = find_comma(t);
        assert forall|j: int| 0 <= j < k - start implies t[j] != 44 by {
            assert(t[j] == s@[start + j]);
        }
        if f < k - start {
            assert(t[f as int] != 44);
            assert(false);
        }
        if f > k - start {
            assert(k - start < t.len());
            assert(t[k - start] == s@[k as int]);
            assert(s@[k as int] == 44);
            assert(t[k - start] != 44);
            assert(false);
        }
        assert(f == k - start);
        assert(t.take(f as int) =~= s@.subrange(start as int, k as int));
    }
    let field = parse_u32_field(s, start, k);
    match field {
        None => {
            proof {
                if find_comma(t) >= t.len() {
                    assert(t =~= s@.subrange(start as int, k as int));
                }
            }
            None
        },
        Some(v) => {
            if k == s.len() {
                proof {
                    assert(t =~= s@.subrange(start as int, k as int));
                }
                let mut out: Vec<u32> = Vec::new();
                out.push(v);
                proof {
                    assert(out@ =~= seq![dec_value(t) as u32]);
                }
                Some(out)
            } else {
                proof {
                    assert(t.skip(k - start + 1) =~= s@.skip(k + 1));
                }
                match parse_fields(s, k + 1) {
                    None => None,
                    Some(mut rest) => {
                        let ghost restv: Seq<u32> = rest@;
                        let mut out: Vec<u32> = Vec::new();
                        out.push(v);
                        out.append(&mut rest);
                        proof {
                            assert(out@ =~= seq![
                                dec_value(s@.subrange(start as int, k as int)) as u32,
                            ] + restv);
                        }
                        Some(out)
                    },
                }
            }
        },
    }
}

impl Highscores {
    /// Read a stored wire string back into a score list: split on commas
    /// and read each field as a decimal value. The whole load fails if
    /// any field is malformed; the empty string is the empty list.
    pub fn deserialize(s: &[u8]) -> (r: Result<Highscores, ParseScoreError>)
        ensures
            s@.len() == 0 ==> (r matches Ok(h) && h.scores@ == Seq::<u32>::empty()),
            s@.len() > 0 ==> (match spec_parse_scores(s@) {
                Some(l) => r matches Ok(h) && h.scores@ == l,
                None => r is Err,
            }),
    {
        if s.len() == 0 {
            return Ok(Highscores::new());
        }
        proof {
            assert(s@.skip(0) =~= s@);
        }
        match parse_fields(s, 0) {
            Some(v) => Ok(Highscores { scores: v }),
            None => Err(ParseScoreError),
        }
    }
}

/// The digits of a value are digits, contain no comma, and read back as
/// the value.
proof fn lemma_dec_digits(n: nat)
    ensures
        dec_digits(n).len() >= 1,
        forall|i: int| 0 <= i < dec_digits(n).len() ==> is_digit(#[trigger] dec_digits(n)[i]),
        dec_value(dec_digits(n)) == n,
    decreases n,
{
    if n < 10 {
        assert(dec_digits(n) =~= seq![(48 + n) as u8]);
        assert(seq![(48 + n) as u8].drop_last() =~= Seq::<u8>::empty());
        assert(dec_value(Seq::<u8>::empty()) == 0);
        assert(seq![(48 + n) as u8].last() == (48 + n) as u8);
        assert(dec_value(dec_digits(n)) == 0 * 10 + ((48 + n) as u8 - 48));
    } else {
        lemma_dec_digits(n / 10);
        let d = dec_digits(n);
        assert(d.drop_last() =~= dec_digits(n / 10));
        assert(d.last() == (48 + n % 10) as u8);
        assert(dec_value(d) == dec_value(dec_digits(n / 10)) * 10 + ((48 + n % 10) - 48));
        assert((n / 10) * 10 + n % 10 == n) by {
            vstd::arithmetic::div_mod::lemma_fundamental_div_mod(n as int, 10);
        }
        assert forall|i: int| 0 <= i < d.len() implies is_digit(#[trigger] d[i]) by {
            if i < d.len() - 1 {
                assert(d[i] == dec_digits(n / 10)[i]);
            }
        }
    }
}

/// Serialization round trip: the wire form of a non-empty list parses
/// back to exactly that list, and the empty list's wire form is the empty
/// string.
pub proof fn lemma_serialize_round_trip(scores: Seq<u32>)
    ensures
        scores.len() == 0 ==> spec_serialize(scores).len() == 0,
        scores.len() > 0 ==> spec_parse_scores(spec_serialize(scores)) == Some(scores),
    decreases scores.len(),
{
    if scores.len() == 0 {
    } else if scores.len() == 1 {
        let ser = spec_serialize(scores);
        lemma_dec_digits(scores[0] as nat);
        lemma_find_comma(ser);
        if find_comma(ser) < ser.len() {
            assert(is_digit(ser[find_comma(ser) as int]));
            assert(false);
        }
        assert(valid_field(ser));
        assert(seq![dec_value(ser) as u32] =~= scores);
    } else {
        let v0 = scores[0];
        let ds = dec_digits(v0 as nat);
        let rest = spec_serialize(scores.skip(1));
        let ser = spec_serialize(scores);
        lemma_dec_digits(v0 as nat);
        lemma_serialize_round_trip(scores.skip(1));
        assert(ser == ds + seq![44u8] + rest);
        lemma_find_comma(ser);
        let f = find_comma(ser);
        assert(ser[ds.len() as int] == 44);
        if f < ds.len() {
            assert(ser[f as int] == ds[f as int]);
            assert(is_digit(ser[f as int]));
            assert(false);
        }
        if f > ds.len() {
            assert(false);
        }
        assert(f == ds.len());
        assert(ser.take(f as int) =~= ds);
        assert(valid_field(ser.take(f as int)));
        assert(ser.skip(f as int + 1) =~= rest);
        assert(seq![dec_value(ds) as u32] + scores.skip(1) =~= scores);
    }
}

/// The scores in descending order: an insertion sort into a fresh list.
fn sort_desc_vec(v: &Vec<u32>) -> (r: Vec<u32>)
    ensures
        sorted_desc(r@),
        r@.to_multiset() == v@.to_multiset(),
        r@.len() == v@.len(),
{
    let mut out: Vec<u32> = Vec::new();
    let mut i: usize = 0;
    proof {
        assert(v@.take(0) =~= Seq::<u32>::empty());
        assert(out@.to_multiset() =~= v@.take(0).to_multiset());
    }
    while i < v.len()
        invariant
            i <= v@.len(),
            out@.len() == i,
            sorted_desc(out@),
            out@.to_multiset() == v@.take(i as int).to_multiset(),
        decreases v@.len() - i,
    {
        let x = v[i];
        let mut k: usize = 0;
        while k < out.len() && out[k] >= x
            invariant
                k <= out@.len(),
                forall|j: int| 0 <= j < k ==> out@[j] >= x,
            decreases out@.len() - k,
        {
            k = k + 1;
        }
        let ghost pre: Seq<u32> = out@;
        out.insert(k, x);
        proof {
            assert(out@ =~= pre.take(k as int) + seq![x] + pre.skip(k as int));
            assert forall|a: int, b: int| 0 <= a <= b < out@.len() implies out@[a] >= out@[b] by {
                if a < k && b == k {
                    assert(out@[a] == pre[a]);
                } else if a == k && b > k {
                    assert(out@[b] == pre[b - 1]);
                    assert(pre[k as int] < x);
                    assert(pre[b - 1] <= pre[k as int]);
                }
            }
            lemma_multiset_commutative(pre.take(k as int) + seq![x], pre.skip(k as int));
            lemma_multiset_commutative(pre.take(k as int), seq![x]);
            lemma_multiset_commutative(pre.take(k as int), pre.skip(k as int));
            assert(pre.take(k as int) + pre.skip(k as int) =~= pre);
            assert(out@.to_multiset() =~= pre.to_multiset().insert(x)) by {
                broadcast use vstd::multiset::group_multiset_axioms;
                broadcast use vstd::seq_lib::group_to_multiset_ensures;

                assert(seq![x] =~= Seq::<u32>::empty().push(x));
                Seq::<u32>::empty().to_multiset_ensures();
                assert forall|a: u32| !Seq::<u32>::empty().contains(a) by {}
                assert(Seq::<u32>::empty().to_multiset() =~= Multiset::<u32>::empty());
                assert(seq![x].to_multiset() =~= Multiset::<u32>::empty().insert(x));
            }
            assert(v@.take(i + 1) =~= v@.take(i as int).push(x));
            v@.take(i + 1).to_multiset_ensures();
            v@.take(i as int).to_multiset_ensures();
            assert(v@.take(i as int).push(x).to_multiset() =~= v@.take(
                i as int,
            ).to_multiset().insert(x));
        }
        i = i + 1;
    }
    proof {
        assert(v@.take(v@.len() as int) =~= v@);
        v@.to_multiset_ensures();
        out@.to_multiset_ensures();
    }
    out
}

} // verus!
