//! A set of `u64` kept as a strictly increasing sequence.
use crate::bytes::{decode_u64s, encode_u64s, get_be_u64, lemma_u64s_round_trip, push_be_u64};
use crate::error::Error;
use crate::value::Value;
use vstd::prelude::*;

verus! {

/// Each element is smaller than the next: sorted, without duplicates.
pub open spec fn increasing_u64(s: Seq<u64>) -> bool {
    forall|i: int, j: int| 0 <= i < j < s.len() ==> s[i] < s[j]
}

/// The two sequences hold the same elements.
pub open spec fn same_elements_u64(a: Seq<u64>, b: Seq<u64>) -> bool {
    forall|y: u64| a.contains(y) <==> b.contains(y)
}

/// `t` with `x` put in its place, when `t` is increasing and lacks `x`.
pub open spec fn insert_sorted_u64(t: Seq<u64>, x: u64) -> Seq<u64>
    decreases t.len(),
{
    if t.len() == 0 {
        seq![x]
    } else if x < t[0] {
        seq![x] + t
    } else if x == t[0] {
        t
    } else {
        seq![t[0]] + insert_sorted_u64(t.drop_first(), x)
    }
}

/// The elements of `s` in increasing order, each once.
pub open spec fn normalize_u64(s: Seq<u64>) -> Seq<u64>
    decreases s.len(),
{
    if s.len() == 0 {
        seq![]
    } else {
        insert_sorted_u64(normalize_u64(s.drop_last()), s.last())
    }
}

proof fn lemma_cons_contains_u64(a: u64, t: Seq<u64>)
    ensures
        forall|y: u64| #[trigger] (seq![a] + t).contains(y) <==> (y == a || t.contains(y)),
{
    let c = seq![a] + t;
    assert forall|y: u64| c.contains(y) <==> (y == a || t.contains(y)) by {
        if c.contains(y) {
            let k = choose|k: int| 0 <= k < c.len() && c[k] == y;
            if k > 0 {
                assert(t[k - 1] == y);
            }
        }
        if y == a {
            assert(c[0] == y);
        }
        if t.contains(y) {
            let k = choose|k: int| 0 <= k < t.len() && t[k] == y;
            assert(c[k + 1] == y);
        }
    }
}

proof fn lemma_concat_contains_u64(a: Seq<u64>, b: Seq<u64>)
    ensures
        forall|y: u64| #[trigger] (a + b).contains(y) <==> (a.contains(y) || b.contains(y)),
{
    let c = a + b;
    assert forall|y: u64| c.contains(y) <==> (a.contains(y) || b.contains(y)) by {
        if c.contains(y) {
            let k = choose|k: int| 0 <= k < c.len() && c[k] == y;
            if k < a.len() {
                assert(a[k] == y);
            } else {
                assert(b[k - a.len()] == y);
            }
        }
        if a.contains(y) {
            let k = choose|k: int| 0 <= k < a.len() && a[k] == y;
            assert(c[k] == y);
        }
        if b.contains(y) {
            let k = choose|k: int| 0 <= k < b.len() && b[k] == y;
            assert(c[k + a.len()] == y);
        }
    }
}

proof fn lemma_insert_sorted_u64(t: Seq<u64>, x: u64)
    requires
        increasing_u64(t),
    ensures
        increasing_u64(insert_sorted_u64(t, x)),
        forall|y: u64| #[trigger] insert_sorted_u64(t, x).contains(y) <==> (t.contains(y) || y == x),
    decreases t.len(),
{
    let r = insert_sorted_u64(t, x);
    if t.len() == 0 {
        lemma_cons_contains_u64(x, t);
        assert(r =~= seq![x] + t);
        assert forall|y: u64| r.contains(y) <==> (t.contains(y) || y == x) by {
            assert((seq![x] + t).contains(y) <==> (y == x || t.contains(y)));
        }
    } else if x < t[0] {
        lemma_cons_contains_u64(x, t);
        assert(r == seq![x] + t);
        assert forall|y: u64| r.contains(y) <==> (t.contains(y) || y == x) by {
            assert((seq![x] + t).contains(y) <==> (y == x || t.contains(y)));
        }
        assert forall|i: int, j: int| 0 <= i < j < r.len() implies r[i] < r[j] by {
            if i > 0 {
                assert(r[i] == t[i - 1]);
            }
            assert(r[j] == t[j - 1]);
        }
    } else if x == t[0] {
        assert(t.contains(t[0]));
    } else {
        let rest = t.drop_first();
        assert(increasing_u64(rest));
        lemma_insert_sorted_u64(rest, x);
        let ins = insert_sorted_u64(rest, x);
        lemma_cons_contains_u64(t[0], ins);
        lemma_cons_contains_u64(t[0], rest);
        assert(t =~= seq![t[0]] + rest);
        assert(r == seq![t[0]] + ins);
        assert forall|y: u64| r.contains(y) <==> (t.contains(y) || y == x) by {
            assert((seq![t[0]] + ins).contains(y) <==> (y == t[0] || ins.contains(y)));
            assert((seq![t[0]] + rest).contains(y) <==> (y == t[0] || rest.contains(y)));
            assert(ins.contains(y) <==> (rest.contains(y) || y == x));
        }
        assert forall|i: int, j: int| 0 <= i < j < r.len() implies r[i] < r[j] by {
            if i == 0 {
                assert(ins.contains(r[j]));
                assert(r[j] == x || rest.contains(r[j]));
                if rest.contains(r[j]) {
                    let k = choose|k: int| 0 <= k < rest.len() && rest[k] == r[j];
                    assert(t[k + 1] == r[j]);
                }
            } else {
                assert(r[i] == ins[i - 1]);
                assert(r[j] == ins[j - 1]);
            }
        }
    }
}

proof fn lemma_normalize_u64(s: Seq<u64>)
    ensures
        increasing_u64(normalize_u64(s)),
        same_elements_u64(normalize_u64(s), s),
    decreases s.len(),
{
    if s.len() > 0 {
        lemma_normalize_u64(s.drop_last());
        lemma_insert_sorted_u64(normalize_u64(s.drop_last()), s.last());
        assert(s =~= s.drop_last() + seq![s.last()]);
        lemma_concat_contains_u64(s.drop_last(), seq![s.last()]);
        let n = normalize_u64(s);
        let m = normalize_u64(s.drop_last());
        assert(n == insert_sorted_u64(m, s.last()));
        assert forall|y: u64| n.contains(y) <==> s.contains(y) by {
            if y == s.last() {
                assert(seq![s.last()][0] == y);
            }
            if seq![s.last()].contains(y) {
                let k = choose|k: int| 0 <= k < 1 && seq![s.last()][k] == y;
            }
            assert(n.contains(y) <==> (m.contains(y) || y == s.last()));
            assert(m.contains(y) <==> s.drop_last().contains(y));
            assert((s.drop_last() + seq![s.last()]).contains(y) <==> (s.drop_last().contains(y)
                || seq![s.last()].contains(y)));
        }
    }
}

/// Two increasing sequences with the same elements are equal.
proof fn lemma_increasing_unique_u64(s: Seq<u64>, t: Seq<u64>)
    requires
        increasing_u64(s),
        increasing_u64(t),
        same_elements_u64(s, t),
    ensures
        s == t,
    decreases s.len(),
{
    if s.len() == 0 {
        if t.len() > 0 {
            assert(t.contains(t[0]));
        }
        assert(s =~= t);
    } else {
        assert(s.contains(s[0]));
        assert(t.contains(s[0]));
        assert(t.len() > 0);
        assert(t.contains(t[0]));
        assert(s.contains(t[0]));
        assert(s[0] == t[0]) by {
            let a = choose|k: int| 0 <= k < t.len() && t[k] == s[0];
            let b = choose|k: int| 0 <= k < s.len() && s[k] == t[0];
            if a > 0 {
                assert(t[0] < t[a]);
            }
            if b > 0 {
                assert(s[0] < s[b]);
            }
        }
        let s1 = s.drop_first();
        let t1 = t.drop_first();
        assert forall|y: u64| s1.contains(y) implies t1.contains(y) by {
            let k = choose|k: int| 0 <= k < s1.len() && s1[k] == y;
            assert(s[k + 1] == y);
            assert(s.contains(y));
            let m = choose|m: int| 0 <= m < t.len() && t[m] == y;
            assert(s[0] < s[k + 1]);
            assert(m != 0);
            assert(t1[m - 1] == y);
        }
        assert forall|y: u64| t1.contains(y) implies s1.contains(y) by {
            let k = choose|k: int| 0 <= k < t1.len() && t1[k] == y;
            assert(t[k + 1] == y);
            assert(t.contains(y));
            let m = choose|m: int| 0 <= m < s.len() && s[m] == y;
            assert(t[0] < t[k + 1]);
            assert(m != 0);
            assert(s1[m - 1] == y);
        }
        lemma_increasing_unique_u64(s1, t1);
        assert(s =~= seq![s[0]] + s1);
        assert(t =~= seq![t[0]] + t1);
    }
}

/// An increasing sequence with the elements of `s` is `normalize_u64(s)`.
proof fn lemma_is_normalized_u64(r: Seq<u64>, s: Seq<u64>)
    requires
        increasing_u64(r),
        same_elements_u64(r, s),
    ensures
        r == normalize_u64(s),
{
    lemma_normalize_u64(s);
    lemma_increasing_unique_u64(r, normalize_u64(s));
}

/// A set of unsigned integers, such as the ids that carry one label.
#[derive(Debug, PartialEq, Eq)]
pub struct Set64 {
    values: Vec<u64>,
}

impl View for Set64 {
    type V = Seq<u64>;

    closed spec fn view(&self) -> Seq<u64> {
        self.values@
    }
}

/// Puts `x` in its place in the increasing `values`, unless it is there.
fn insert_u64(values: &mut Vec<u64>, x: u64)
    requires
        increasing_u64(old(values)@),
    ensures
        increasing_u64(final(values)@),
        forall|y: u64| final(values)@.contains(y) <==> (old(values)@.contains(y) || y == x),
{
    let mut i: usize = values.len();
    while i > 0 && values[i - 1] > x
        invariant
            i <= values@.len(),
            values@ == old(values)@,
            forall|k: int| i <= k < values@.len() ==> values@[k] > x,
        decreases i,
    {
        i = i - 1;
    }
    if i > 0 && values[i - 1] == x {
        assert(values@.contains(values@[i - 1]));
        return ;
    }
    let ghost before = values@;
    values.insert(i, x);
    let ghost after = values@;
    assert(after[i as int] == x);
    assert forall|j: int, k: int| 0 <= j < k < after.len() implies after[j] < after[k] by {
        if k < i {
            assert(after[j] == before[j] && after[k] == before[k]);
        } else if k == i {
            assert(after[j] == before[j]);
            assert(before[j] <= before[i - 1]);
        } else if j < i {
            assert(after[j] == before[j]);
            assert(after[k] == before[k - 1]);
            assert(before[j] <= before[i - 1]);
        } else if j == i {
            assert(after[k] == before[k - 1]);
        } else {
            assert(after[j] == before[j - 1] && after[k] == before[k - 1]);
        }
    }
    assert forall|y: u64| after.contains(y) <==> (before.contains(y) || y == x) by {
        if after.contains(y) {
            let k = choose|k: int| 0 <= k < after.len() && after[k] == y;
            if k < i {
                assert(before[k] == y);
            } else if k > i {
                assert(before[k - 1] == y);
            }
        }
        if before.contains(y) {
            let k = choose|k: int| 0 <= k < before.len() && before[k] == y;
            if k < i {
                assert(after[k] == y);
            } else {
                assert(after[k + 1] == y);
            }
        }
    }
}

/// The elements of `raw` in increasing order, each once.
fn normalized_u64(raw: &[u64]) -> (r: Vec<u64>)
    ensures
        r@ == normalize_u64(raw@),
{
    let mut r: Vec<u64> = Vec::new();
    let mut i: usize = 0;
    while i < raw.len()
        invariant
            i <= raw@.len(),
            increasing_u64(r@),
            same_elements_u64(r@, raw@.take(i as int)),
        decreases raw@.len() - i,
    {
        insert_u64(&mut r, raw[i]);
        proof {
            assert(raw@.take(i + 1) =~= raw@.take(i as int) + seq![raw@[i as int]]);
            lemma_concat_contains_u64(raw@.take(i as int), seq![raw@[i as int]]);
            let p = raw@.take(i as int);
            let q = raw@.take(i + 1);
            let x = raw@[i as int];
            assert forall|y: u64| r@.contains(y) <==> q.contains(y) by {
                assert((p + seq![x]).contains(y) <==> (p.contains(y) || seq![x].contains(y)));
                if y == x {
                    assert(seq![x][0] == y);
                }
                if seq![x].contains(y) {
                    let k = choose|k: int| 0 <= k < 1 && seq![x][k] == y;
                }
            }
        }
        i = i + 1;
    }
    proof {
        assert(raw@.take(i as int) =~= raw@);
        lemma_is_normalized_u64(r@, raw@);
    }
    r
}

impl Set64 {
    #[verifier::type_invariant]
    spec fn inv(&self) -> bool {
        increasing_u64(self.values@)
    }

    /// The set of the given values, sorted and without duplicates.
    pub fn new(values: &[u64]) -> (r: Self)
        ensures
            r@ == normalize_u64(values@),
    {
        let v = normalized_u64(values);
        proof {
            lemma_normalize_u64(values@);
        }
        Set64 { values: v }
    }

    pub fn singleton(value: u64) -> (r: Self)
        ensures
            r@ == seq![value],
    {
        let mut v: Vec<u64> = Vec::new();
        v.push(value);
        assert(increasing_u64(v@));
        Set64 { values: v }
    }

    pub fn values(&self) -> (r: &[u64])
        ensures
            r@ == self@,
    {
        self.values.as_slice()
    }

    pub fn into_inner(self) -> (r: Vec<u64>)
        ensures
            r@ == self@,
            increasing_u64(r@),
    {
        proof {
            use_type_invariant(&self);
        }
        self.values
    }
}

impl From<u64> for Set64 {
    fn from(input: u64) -> (r: Self) {
        Self::singleton(input)
    }
}

impl vstd::std_specs::convert::FromSpecImpl<u64> for Set64 {
    /// A set owns a vector, which no spec function can build: the conversion
    /// is specified by `singleton`, which it calls.
    open spec fn obeys_from_spec() -> bool {
        false
    }

    closed spec fn from_spec(input: u64) -> Set64 {
        arbitrary()
    }
}

impl<'a> From<&'a [u64]> for Set64 {
    fn from(input: &'a [u64]) -> (r: Self) {
        Self::new(input)
    }
}

impl<'a> vstd::std_specs::convert::FromSpecImpl<&'a [u64]> for Set64 {
    /// As for `From<u64>`: the conversion is specified by `new`, which it calls.
    open spec fn obeys_from_spec() -> bool {
        false
    }

    closed spec fn from_spec(input: &'a [u64]) -> Set64 {
        arbitrary()
    }
}

/// Combining a set with a singleton already in it leaves it unchanged.
pub proof fn lemma_add_present_u64(a: Seq<u64>, x: u64)
    requires
        increasing_u64(a),
        a.contains(x),
    ensures
        Set64::combine_spec(a, seq![x]) == a,
{
    lemma_concat_contains_u64(a, seq![x]);
    assert forall|y: u64| seq![x].contains(y) implies y == x by {
        let k = choose|k: int| 0 <= k < 1 && seq![x][k] == y;
    }
    assert forall|y: u64| a.contains(y) <==> (a + seq![x]).contains(y) by {
        assert((a + seq![x]).contains(y) <==> (a.contains(y) || seq![x].contains(y)));
        if y == x {
            assert(seq![x][0] == y);
        }
    }
    lemma_is_normalized_u64(a, a + seq![x]);
}

impl Value for Set64 {
    open spec fn valid(v: Seq<u64>) -> bool {
        increasing_u64(v)
    }

    open spec fn valid_length(n: nat) -> bool {
        n % 8 == 0
    }

    open spec fn decode_spec(bytes: Seq<u8>) -> Option<Seq<u64>> {
        if bytes.len() % 8 == 0 {
            Some(normalize_u64(decode_u64s(bytes)))
        } else {
            None
        }
    }

    open spec fn encode_spec(v: Seq<u64>) -> Seq<u8> {
        encode_u64s(v)
    }

    open spec fn combine_spec(a: Seq<u64>, b: Seq<u64>) -> Seq<u64> {
        normalize_u64(a + b)
    }

    proof fn lemma_decode_length(bytes: Seq<u8>) {
        lemma_normalize_u64(decode_u64s(bytes));
    }

    proof fn lemma_round_trip(v: Seq<u64>) {
        lemma_u64s_round_trip(v);
        lemma_is_normalized_u64(v, v);
    }

    proof fn lemma_combine_valid(a: Seq<u64>, b: Seq<u64>) {
        lemma_normalize_u64(a + b);
    }

    proof fn lemma_combine_commutative(a: Seq<u64>, b: Seq<u64>) {
        lemma_normalize_u64(a + b);
        lemma_concat_contains_u64(a, b);
        lemma_concat_contains_u64(b, a);
        let n = normalize_u64(a + b);
        assert forall|y: u64| n.contains(y) <==> (b + a).contains(y) by {
            assert(n.contains(y) <==> (a + b).contains(y));
            assert((a + b).contains(y) <==> (a.contains(y) || b.contains(y)));
            assert((b + a).contains(y) <==> (b.contains(y) || a.contains(y)));
        }
        lemma_is_normalized_u64(n, b + a);
    }

    proof fn lemma_combine_associative(a: Seq<u64>, b: Seq<u64>, c: Seq<u64>) {
        let ab = normalize_u64(a + b);
        let bc = normalize_u64(b + c);
        lemma_normalize_u64(a + b);
        lemma_normalize_u64(b + c);
        lemma_normalize_u64(ab + c);
        lemma_concat_contains_u64(a, b);
        lemma_concat_contains_u64(b, c);
        lemma_concat_contains_u64(ab, c);
        lemma_concat_contains_u64(a, bc);
        let n = normalize_u64(ab + c);
        assert forall|y: u64| n.contains(y) <==> (a + bc).contains(y) by {
            assert(n.contains(y) <==> (ab + c).contains(y));
            assert((ab + c).contains(y) <==> (ab.contains(y) || c.contains(y)));
            assert(ab.contains(y) <==> (a + b).contains(y));
            assert((a + b).contains(y) <==> (a.contains(y) || b.contains(y)));
            assert((a + bc).contains(y) <==> (a.contains(y) || bc.contains(y)));
            assert(bc.contains(y) <==> (b + c).contains(y));
            assert((b + c).contains(y) <==> (b.contains(y) || c.contains(y)));
        }
        lemma_is_normalized_u64(n, a + bc);
    }

    proof fn lemma_combine_idempotent(a: Seq<u64>) {
        lemma_concat_contains_u64(a, a);
        assert forall|y: u64| a.contains(y) <==> (a + a).contains(y) by {
            assert((a + a).contains(y) <==> (a.contains(y) || a.contains(y)));
        }
        lemma_is_normalized_u64(a, a + a);
    }

    fn prepare(bytes: &[u8]) -> (r: Result<Self, Error>) {
        if bytes.len() % 8 == 0 {
            let total = bytes.len();
            let len = total / 8;
            let mut raw: Vec<u64> = Vec::with_capacity(len);
            let mut i: usize = 0;
            while i < len
                invariant
                    len == bytes@.len() / 8,
                    8 * len <= total,
                    total == bytes@.len(),
                    i <= len,
                    raw@ == decode_u64s(bytes@).take(i as int),
                decreases len - i,
            {
                let value = get_be_u64(bytes, 8 * i);
                raw.push(value);
                assert(raw@ =~= decode_u64s(bytes@).take(i + 1));
                i = i + 1;
            }
            assert(raw@ =~= decode_u64s(bytes@));
            let values = normalized_u64(raw.as_slice());
            proof {
                lemma_normalize_u64(raw@);
            }
            Ok(Set64 { values })
        } else {
            Err(Error::invalid_value(bytes))
        }
    }

    fn encode(self) -> (r: Vec<u8>) {
        let n = self.values.len();
        let mut result: Vec<u8> = Vec::new();
        let mut i: usize = 0;
        while i < n
            invariant
                n == self.values@.len(),
                i <= n,
                result@ == encode_u64s(self.values@.take(i as int)),
            decreases n - i,
        {
            push_be_u64(&mut result, self.values[i]);
            assert(self.values@.take(i + 1).drop_last() =~= self.values@.take(i as int));
            i = i + 1;
        }
        assert(self.values@.take(i as int) =~= self.values@);
        result
    }

    fn combine(self, other: Self) -> (r: Self) {
        proof {
            use_type_invariant(&self);
            use_type_invariant(&other);
        }
        let ghost a = self.values@;
        let ghost b = other.values@;
        let mut values = self.values;
        let n = other.values.len();
        let mut j: usize = 0;
        while j < n
            invariant
                n == b.len(),
                b == other.values@,
                j <= n,
                increasing_u64(values@),
                same_elements_u64(values@, a + b.take(j as int)),
            decreases n - j,
        {
            insert_u64(&mut values, other.values[j]);
            proof {
                lemma_concat_contains_u64(a, b.take(j as int));
                lemma_concat_contains_u64(a, b.take(j + 1));
                lemma_concat_contains_u64(b.take(j as int), seq![b[j as int]]);
                assert(b.take(j + 1) =~= b.take(j as int) + seq![b[j as int]]);
                let x = b[j as int];
                let p = b.take(j as int);
                assert forall|y: u64| values@.contains(y) <==> (a + b.take(j + 1)).contains(y) by {
                    assert((p + seq![x]).contains(y) <==> (p.contains(y) || seq![x].contains(y)));
                    assert((a + p).contains(y) <==> (a.contains(y) || p.contains(y)));
                    assert((a + b.take(j + 1)).contains(y) <==> (a.contains(y) || b.take(j
                        + 1).contains(y)));
                    if y == x {
                        assert(seq![x][0] == y);
                    }
                    if seq![x].contains(y) {
                        let k = choose|k: int| 0 <= k < 1 && seq![x][k] == y;
                    }
                }
            }
            j = j + 1;
        }
        assert(b.take(j as int) =~= b);
        proof {
            lemma_is_normalized_u64(values@, a + b);
        }
        Set64 { values }
    }
}

} // verus!
