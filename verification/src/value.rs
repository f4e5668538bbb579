//! The evaluator's value model.
//!
//! A runtime value is a boolean, a 32-bit integer, or a set of values. A set
//! is kept in canonical form: its members are strictly increasing under a
//! total order on values, so a set has exactly one representation, membership
//! is decidable by comparison, and structural equality of canonical sets is
//! set equality.

use vstd::prelude::*;

verus! {

/// A transient evaluation result.
#[derive(PartialEq, Eq, Debug, PartialOrd, Ord)]
pub enum Value {
    Bool(bool),
    Int(i32),
    /// Members in strictly increasing order, hence without duplicates.
    SetOf(Vec<Value>),
}

/// The mathematical value of a [`Value`]: the same tree over `Seq`.
#[verifier::ext_equal]
pub enum GValue {
    Bool(bool),
    Int(i32),
    SetOf(Seq<GValue>),
}

/// The ghost mirror of one value.
pub open spec fn view_value(v: Value) -> GValue
    decreases v,
{
    match v {
        Value::Bool(b) => GValue::Bool(b),
        Value::Int(i) => GValue::Int(i),
        Value::SetOf(els) => GValue::SetOf(view_values(els@)),
    }
}

/// The ghost mirrors of a sequence of values, in order.
pub open spec fn view_values(s: Seq<Value>) -> Seq<GValue>
    decreases s,
{
    if s.len() == 0 {
        Seq::empty()
    } else {
        view_values(s.drop_last()).push(view_value(s.last()))
    }
}

impl View for Value {
    type V = GValue;

    open spec fn view(&self) -> GValue {
        view_value(*self)
    }
}

/// `view_values` is the element-wise mirror.
pub proof fn lemma_view_values(s: Seq<Value>)
    ensures
        view_values(s).len() == s.len(),
        forall|i: int| 0 <= i < s.len() ==> view_values(s)[i] == view_value(s[i]),
    decreases s,
{
    if s.len() > 0 {
        lemma_view_values(s.drop_last());
    }
}

/// The rank of a value's variant in the total order: booleans, then
/// integers, then sets.
pub open spec fn tag_of(v: GValue) -> int {
    match v {
        GValue::Bool(_) => 0,
        GValue::Int(_) => 1,
        GValue::SetOf(_) => 2,
    }
}

/// Lexicographic order on member sequences, read from position `i` on:
/// the first differing member decides; a proper prefix comes first.
pub open spec fn seq_lt(s: Seq<GValue>, t: Seq<GValue>, i: int) -> bool
    decreases s, t, s.len() - i,
{
    if 0 <= i < s.len() && i < t.len() {
        glt(s[i], t[i]) || (s[i] == t[i] && seq_lt(s, t, i + 1))
    } else {
        i >= s.len() && i < t.len()
    }
}

/// The strict total order on values: variants rank booleans before integers
/// before sets; `false` before `true`; integers numerically; sets
/// lexicographically by their members.
pub open spec fn glt(a: GValue, b: GValue) -> bool
    decreases a, b, 0int,
{
    if tag_of(a) != tag_of(b) {
        tag_of(a) < tag_of(b)
    } else {
        match (a, b) {
            (GValue::Bool(x), GValue::Bool(y)) => !x && y,
            (GValue::Int(x), GValue::Int(y)) => x < y,
            (GValue::SetOf(s), GValue::SetOf(t)) => seq_lt(s, t, 0),
            _ => false,
        }
    }
}

/// Strictly increasing under [`glt`]: the canonical member order of a set.
pub open spec fn strictly_sorted(s: Seq<GValue>) -> bool {
    forall|i: int, j: int| 0 <= i < j < s.len() ==> glt(s[i], s[j])
}

/// Every set inside the value is in canonical form.
pub open spec fn gvalid(v: GValue) -> bool
    decreases v,
{
    match v {
        GValue::Bool(_) => true,
        GValue::Int(_) => true,
        GValue::SetOf(s) => strictly_sorted(s) && forall|i: int|
            0 <= i < s.len() ==> gvalid(#[trigger] s[i]),
    }
}

/// Inserts a value into a canonical member sequence, keeping it canonical;
/// inserting a member already present returns the sequence unchanged.
pub open spec fn ginsert(s: Seq<GValue>, v: GValue) -> Seq<GValue>
    decreases s.len(),
{
    if s.len() == 0 {
        seq![v]
    } else if glt(v, s[0]) {
        seq![v] + s
    } else if v == s[0] {
        s
    } else {
        seq![s[0]] + ginsert(s.drop_first(), v)
    }
}

/// The canonical union: every member of `b` inserted into `a`.
pub open spec fn gunion(a: Seq<GValue>, b: Seq<GValue>) -> Seq<GValue>
    decreases b.len(),
{
    if b.len() == 0 {
        a
    } else {
        ginsert(gunion(a, b.drop_last()), b.last())
    }
}

/// The canonical difference: the members of `a` that `b` does not contain.
pub open spec fn gdiff(a: Seq<GValue>, b: Seq<GValue>) -> Seq<GValue>
    decreases a.len(),
{
    if a.len() == 0 {
        Seq::empty()
    } else if b.contains(a.last()) {
        gdiff(a.drop_last(), b)
    } else {
        gdiff(a.drop_last(), b).push(a.last())
    }
}

/// Whether `t` contains every member of `s`: the subset order on member
/// sequences.
pub open spec fn gsubset(s: Seq<GValue>, t: Seq<GValue>) -> bool {
    forall|i: int| 0 <= i < s.len() ==> t.contains(#[trigger] s[i])
}

/// Member suffixes from position `i` on are equal.
pub open spec fn seq_suffix_eq(s: Seq<GValue>, t: Seq<GValue>, i: int) -> bool {
    s.len() == t.len() && forall|j: int| i <= j < s.len() ==> s[j] == t[j]
}

/// [`glt`] is trichotomous: of `glt(a, b)`, `a == b` and `glt(b, a)`,
/// exactly one holds.
pub proof fn lemma_glt_tri(a: GValue, b: GValue)
    ensures
        glt(a, b) || glt(b, a) || a == b,
        glt(a, b) ==> !glt(b, a) && a != b,
        glt(b, a) ==> !glt(a, b) && a != b,
    decreases a, b, 0int,
{
    match (a, b) {
        (GValue::SetOf(s), GValue::SetOf(t)) => {
            lemma_seq_tri(s, t, 0);
            if !seq_lt(s, t, 0) && !seq_lt(t, s, 0) {
                assert(s =~= t);
            }
        },
        _ => {},
    }
}

proof fn lemma_seq_tri(s: Seq<GValue>, t: Seq<GValue>, i: int)
    requires
        0 <= i,
    ensures
        seq_lt(s, t, i) || seq_lt(t, s, i) || seq_suffix_eq(s, t, i) || (i >= s.len() && i
            >= t.len()),
        !(seq_lt(s, t, i) && seq_lt(t, s, i)),
        seq_suffix_eq(s, t, i) ==> !seq_lt(s, t, i) && !seq_lt(t, s, i),
    decreases s, t, s.len() + t.len() - 2 * i,
{
    if i < s.len() && i < t.len() {
        lemma_glt_tri(s[i], t[i]);
        lemma_seq_tri(s, t, i + 1);
    }
}

/// [`glt`] is transitive.
pub proof fn lemma_glt_trans(a: GValue, b: GValue, c: GValue)
    requires
        glt(a, b),
        glt(b, c),
    ensures
        glt(a, c),
    decreases a, b, c, 0int,
{
    match (a, b, c) {
        (GValue::SetOf(s), GValue::SetOf(t), GValue::SetOf(u)) => {
            if tag_of(a) == tag_of(b) && tag_of(b) == tag_of(c) {
                lemma_seq_trans(s, t, u, 0);
            }
        },
        _ => {},
    }
}

proof fn lemma_seq_trans(s: Seq<GValue>, t: Seq<GValue>, u: Seq<GValue>, i: int)
    requires
        0 <= i,
        seq_lt(s, t, i),
        seq_lt(t, u, i),
    ensures
        seq_lt(s, u, i),
    decreases s, t, u, s.len() - i,
{
    if i < s.len() {
        if glt(s[i], t[i]) {
            if glt(t[i], u[i]) {
                lemma_glt_trans(s[i], t[i], u[i]);
            }
        } else {
            if !glt(t[i], u[i]) {
                lemma_seq_trans(s, t, u, i + 1);
            }
        }
    }
}

/// Reading the lexicographic order from 0 or from `i` is the same while the
/// members before `i` agree.
pub proof fn lemma_seq_lt_skip(s: Seq<GValue>, t: Seq<GValue>, i: int)
    requires
        0 <= i <= s.len(),
        i <= t.len(),
        forall|j: int| 0 <= j < i ==> s[j] == t[j],
    ensures
        seq_lt(s, t, 0) <==> seq_lt(s, t, i),
    decreases i,
{
    if i > 0 {
        lemma_seq_lt_skip(s, t, i - 1);
        lemma_glt_tri(s[i - 1], t[i - 1]);
    }
}

/// What [`ginsert`] does, read as a set: it keeps the sequence canonical and
/// adds exactly the one member.
pub proof fn lemma_ginsert(s: Seq<GValue>, v: GValue)
    requires
        strictly_sorted(s),
    ensures
        strictly_sorted(ginsert(s, v)),
        forall|x: GValue| #[trigger] ginsert(s, v).contains(x) <==> s.contains(x) || x == v,
        s.len() <= ginsert(s, v).len() <= s.len() + 1,
    decreases s.len(),
{
    let r = ginsert(s, v);
    if s.len() == 0 {
        assert(r.contains(v)) by {
            assert(r[0] == v);
        }
        assert(forall|x: GValue| s.contains(x) ==> false);
    } else if glt(v, s[0]) {
        assert forall|i: int, j: int| 0 <= i < j < r.len() implies glt(r[i], r[j]) by {
            if i == 0 {
                if j > 1 {
                    lemma_glt_trans(v, s[0], s[j - 1]);
                }
            }
        }
        assert forall|x: GValue| r.contains(x) implies s.contains(x) || x == v by {
            let i = choose|i: int| 0 <= i < r.len() && r[i] == x;
            if i > 0 {
                assert(s[i - 1] == x);
            }
        }
        assert forall|x: GValue| s.contains(x) || x == v implies r.contains(x) by {
            if s.contains(x) {
                let i = choose|i: int| 0 <= i < s.len() && s[i] == x;
                assert(r[i + 1] == x);
            } else {
                assert(r[0] == x);
            }
        }
    } else if v == s[0] {
        assert(r.contains(v)) by {
            assert(r[0] == v);
        }
    } else {
        lemma_glt_tri(v, s[0]);
        let sd = s.drop_first();
        assert(strictly_sorted(sd)) by {
            assert(forall|i: int, j: int|
                0 <= i < j < sd.len() ==> sd[i] == s[i + 1] && sd[j] == s[j + 1]);
        }
        lemma_ginsert(sd, v);
        let rd = ginsert(sd, v);
        assert(r =~= seq![s[0]] + rd);
        assert forall|j: int| 0 < j < r.len() implies glt(r[0], r[j]) by {
            assert(rd.contains(rd[j - 1])) by {
                assert(rd[j - 1] == rd[j - 1]);
            }
            if sd.contains(rd[j - 1]) {
                let k = choose|k: int| 0 <= k < sd.len() && sd[k] == rd[j - 1];
                assert(sd[k] == s[k + 1]);
                assert(glt(s[0], s[k + 1]));
            } else {
                assert(rd[j - 1] == v);
            }
        }
        assert forall|i: int, j: int| 0 <= i < j < r.len() implies glt(r[i], r[j]) by {
            if i > 0 {
                assert(r[i] == rd[i - 1] && r[j] == rd[j - 1]);
            }
        }
        assert forall|x: GValue| r.contains(x) implies s.contains(x) || x == v by {
            let i = choose|i: int| 0 <= i < r.len() && r[i] == x;
            if i == 0 {
                assert(s[0] == x);
            } else {
                assert(rd.contains(rd[i - 1]));
                if sd.contains(x) {
                    let k = choose|k: int| 0 <= k < sd.len() && sd[k] == x;
                    assert(s[k + 1] == x);
                }
            }
        }
        assert forall|x: GValue| s.contains(x) || x == v implies r.contains(x) by {
            if s.contains(x) {
                let i = choose|i: int| 0 <= i < s.len() && s[i] == x;
                if i == 0 {
                    assert(r[0] == x);
                } else {
                    assert(sd.contains(x)) by {
                        assert(0 <= i - 1 < sd.len() && sd[i - 1] == x);
                    }
                    assert(rd.contains(x));
                    let k = choose|k: int| 0 <= k < rd.len() && rd[k] == x;
                    assert(r[k + 1] == x);
                }
            } else {
                assert(rd.contains(v));
                let k = choose|k: int| 0 <= k < rd.len() && rd[k] == v;
                assert(r[k + 1] == x);
            }
        }
    }
}

/// A non-empty sequence contains exactly its last member and what the rest
/// contains.
pub proof fn lemma_contains_split(s: Seq<GValue>)
    requires
        s.len() > 0,
    ensures
        forall|x: GValue| #[trigger] s.contains(x) <==> s.drop_last().contains(x) || x == s.last(),
{
    assert forall|x: GValue| s.contains(x) implies s.drop_last().contains(x) || x == s.last() by {
        let i = choose|i: int| 0 <= i < s.len() && s[i] == x;
        if i < s.len() - 1 {
            assert(s.drop_last()[i] == x);
        }
    }
    assert forall|x: GValue| s.drop_last().contains(x) || x == s.last() implies s.contains(x) by {
        if s.drop_last().contains(x) {
            let i = choose|i: int| 0 <= i < s.drop_last().len() && s.drop_last()[i] == x;
            assert(s[i] == x);
        } else {
            assert(s[s.len() - 1] == x);
        }
    }
}

/// What [`gunion`] does, read as a set: the union of the two member sets,
/// in canonical form.
pub proof fn lemma_gunion(a: Seq<GValue>, b: Seq<GValue>)
    requires
        strictly_sorted(a),
    ensures
        strictly_sorted(gunion(a, b)),
        forall|x: GValue| #[trigger] gunion(a, b).contains(x) <==> a.contains(x) || b.contains(x),
    decreases b.len(),
{
    if b.len() == 0 {
        assert(forall|x: GValue| !b.contains(x));
    } else {
        lemma_gunion(a, b.drop_last());
        lemma_ginsert(gunion(a, b.drop_last()), b.last());
        lemma_contains_split(b);
    }
}

/// What [`gdiff`] does, read as a set: the members of `a` that are not in
/// `b`, in canonical form.
pub proof fn lemma_gdiff(a: Seq<GValue>, b: Seq<GValue>)
    requires
        strictly_sorted(a),
    ensures
        strictly_sorted(gdiff(a, b)),
        forall|x: GValue| #[trigger] gdiff(a, b).contains(x) <==> a.contains(x) && !b.contains(x),
    decreases a.len(),
{
    if a.len() > 0 {
        let ad = a.drop_last();
        assert(strictly_sorted(ad)) by {
            assert(forall|i: int, j: int|
                0 <= i < j < ad.len() ==> ad[i] == a[i] && ad[j] == a[j]);
        }
        lemma_gdiff(ad, b);
        lemma_contains_split(a);
        let rd = gdiff(ad, b);
        if !b.contains(a.last()) {
            let r = rd.push(a.last());
            assert forall|i: int, j: int| 0 <= i < j < r.len() implies glt(r[i], r[j]) by {
                if j == r.len() - 1 {
                    assert(r[i] == rd[i]);
                    assert(rd.contains(rd[i])) by {
                        assert(0 <= i < rd.len() && rd[i] == rd[i]);
                    }
                    assert(ad.contains(rd[i]));
                    let k = choose|k: int| 0 <= k < ad.len() && ad[k] == rd[i];
                    assert(a[k] == rd[i]);
                    assert(glt(a[k], a[a.len() - 1]));
                    assert(r[j] == a.last());
                }
            }
            assert forall|x: GValue| r.contains(x) implies a.contains(x) && !b.contains(x) by {
                let i = choose|i: int| 0 <= i < r.len() && r[i] == x;
                if i < r.len() - 1 {
                    assert(rd[i] == x);
                    assert(rd.contains(x));
                }
            }
            assert forall|x: GValue| a.contains(x) && !b.contains(x) implies r.contains(x) by {
                if ad.contains(x) && !b.contains(x) {
                    assert(rd.contains(x));
                    let k = choose|k: int| 0 <= k < rd.len() && rd[k] == x;
                    assert(r[k] == x);
                } else {
                    assert(r[r.len() - 1] == x);
                }
            }
        } else {
            assert forall|x: GValue| a.contains(x) && !b.contains(x) implies gdiff(a, b).contains(x) by {
                assert(ad.contains(x) || x == a.last());
            }
        }
    } else {
        assert(forall|x: GValue| !a.contains(x));
    }
}

/// Canonical member sequences with the same members are the same sequence:
/// structural equality of canonical sets is set equality.
pub proof fn lemma_canonical_eq(s: Seq<GValue>, t: Seq<GValue>)
    requires
        strictly_sorted(s),
        strictly_sorted(t),
        forall|x: GValue| #![trigger s.contains(x)] #![trigger t.contains(x)] s.contains(x)
            <==> t.contains(x),
    ensures
        s == t,
    decreases s.len(),
{
    if s.len() == 0 {
        if t.len() > 0 {
            assert(t.contains(t[0]));
            let i = choose|i: int| 0 <= i < s.len() && s[i] == t[0];
            assert(false);
        }
        assert(s =~= t);
    } else {
        assert(s.contains(s[0]));
        if t.len() == 0 {
            let i = choose|i: int| 0 <= i < t.len() && t[i] == s[0];
            assert(false);
        }
        let i = choose|i: int| 0 <= i < t.len() && t[i] == s[0];
        assert(t.contains(t[0]));
        let j = choose|j: int| 0 <= j < s.len() && s[j] == t[0];
        if i > 0 && j > 0 {
            assert(glt(t[0], t[i]));
            assert(glt(s[0], s[j]));
            lemma_glt_tri(s[0], t[0]);
            assert(false);
        }
        assert(s[0] == t[0]);
        let sd = s.drop_first();
        let td = t.drop_first();
        assert(strictly_sorted(sd) && strictly_sorted(td)) by {
            assert(forall|i: int, j: int|
                0 <= i < j < sd.len() ==> sd[i] == s[i + 1] && sd[j] == s[j + 1]);
            assert(forall|i: int, j: int|
                0 <= i < j < td.len() ==> td[i] == t[i + 1] && td[j] == t[j + 1]);
        }
        assert forall|x: GValue| sd.contains(x) implies s.contains(x) && x != s[0] by {
            let k = choose|k: int| 0 <= k < sd.len() && sd[k] == x;
            assert(s[k + 1] == x);
            assert(glt(s[0], s[k + 1]));
            lemma_glt_tri(s[0], x);
        }
        assert forall|x: GValue| td.contains(x) implies t.contains(x) && x != t[0] by {
            let k = choose|k: int| 0 <= k < td.len() && td[k] == x;
            assert(t[k + 1] == x);
            assert(glt(t[0], t[k + 1]));
            lemma_glt_tri(t[0], x);
        }
        assert forall|x: GValue| s.contains(x) && x != s[0] implies sd.contains(x) by {
            let k = choose|k: int| 0 <= k < s.len() && s[k] == x;
            assert(sd[k - 1] == x);
        }
        assert forall|x: GValue| t.contains(x) && x != t[0] implies td.contains(x) by {
            let k = choose|k: int| 0 <= k < t.len() && t[k] == x;
            assert(td[k - 1] == x);
        }
        lemma_canonical_eq(sd, td);
        assert(s =~= t) by {
            assert(forall|k: int| 1 <= k < s.len() ==> s[k] == sd[k - 1] && t[k] == td[k - 1]);
        }
    }
}

/// The canonical member sequence holding the given integers as values.
pub open spec fn canon_ints(s: Seq<i8>) -> Seq<GValue>
    decreases s.len(),
{
    if s.len() == 0 {
        Seq::empty()
    } else {
        ginsert(canon_ints(s.drop_last()), GValue::Int(s.last() as i32))
    }
}

/// What [`canon_ints`] holds, read as a set: exactly the given integers,
/// in canonical form.
pub proof fn lemma_canon_ints(s: Seq<i8>)
    ensures
        strictly_sorted(canon_ints(s)),
        forall|x: GValue| #[trigger] canon_ints(s).contains(x) <==> exists|i: int|
            0 <= i < s.len() && x == GValue::Int(s[i] as i32),
    decreases s.len(),
{
    if s.len() > 0 {
        let sd = s.drop_last();
        lemma_canon_ints(sd);
        lemma_ginsert(canon_ints(sd), GValue::Int(s.last() as i32));
        assert forall|x: GValue| #[trigger] canon_ints(s).contains(x) implies exists|i: int|
            0 <= i < s.len() && x == GValue::Int(s[i] as i32) by {
            if canon_ints(sd).contains(x) {
                let i = choose|i: int| 0 <= i < sd.len() && x == GValue::Int(sd[i] as i32);
                assert(sd[i] == s[i]);
                assert(0 <= i < s.len() && x == GValue::Int(s[i] as i32));
            } else {
                assert(x == GValue::Int(s[s.len() - 1] as i32));
            }
        }
        assert forall|x: GValue|
            (exists|i: int|
                0 <= i < s.len() && x == GValue::Int(
                    s[i] as i32,
                )) implies #[trigger] canon_ints(s).contains(x) by {
            let i = choose|i: int| 0 <= i < s.len() && x == GValue::Int(s[i] as i32);
            if i < s.len() - 1 {
                assert(sd[i] == s[i]);
                assert(canon_ints(sd).contains(x));
            }
        }
    }
}

/// Splitting an insertion at a scan position: once every member before `k`
/// is below the new value, the insertion happens in the tail.
pub proof fn lemma_ginsert_split(s: Seq<GValue>, v: GValue, k: int)
    requires
        0 <= k <= s.len(),
        forall|j: int| 0 <= j < k ==> glt(#[trigger] s[j], v),
    ensures
        ginsert(s, v) == s.take(k) + ginsert(s.skip(k), v),
    decreases k,
{
    if k == 0 {
        assert(s.skip(0) =~= s);
        assert(s.take(0) + ginsert(s, v) =~= ginsert(s, v));
    } else {
        lemma_glt_tri(v, s[0]);
        let sd = s.drop_first();
        assert(forall|j: int| 0 <= j < k - 1 ==> glt(#[trigger] sd[j], v));
        lemma_ginsert_split(sd, v, k - 1);
        assert(seq![s[0]] + sd.take(k - 1) =~= s.take(k));
        assert(sd.skip(k - 1) =~= s.skip(k));
        assert(seq![s[0]] + (sd.take(k - 1) + ginsert(sd.skip(k - 1), v)) =~= (seq![s[0]]
            + sd.take(k - 1)) + ginsert(s.skip(k), v));
    }
}

impl Clone for Value {
    /// A clone mirrors the original exactly.
    fn clone(&self) -> (r: Self)
        ensures
            r@ == self@,
        decreases *self,
    {
        match self {
            Value::Bool(b) => Value::Bool(*b),
            Value::Int(i) => Value::Int(*i),
            Value::SetOf(els) => {
                let mut copies: Vec<Value> = Vec::new();
                let mut i: usize = 0;
                while i < els.len()
                    invariant
                        *self == Value::SetOf(*els),
                        i <= els@.len(),
                        copies@.len() == i as int,
                        forall|j: int| 0 <= j < i ==> view_value(copies@[j]) == view_value(
                            els@[j],
                        ),
                    decreases els@.len() - i,
                {
                    proof {
                        assert(*els == self->SetOf_0);
                        assert(decreases_to!(*self => self->SetOf_0));
                        assert(decreases_to!(*els => els@));
                        assert(decreases_to!(els@ => els@[i as int]));
                        assert(decreases_to!(*self => els@[i as int]));
                    }
                    let c = els[i].clone();
                    copies.push(c);
                    i = i + 1;
                }
                proof {
                    lemma_view_values(els@);
                    lemma_view_values(copies@);
                    assert(view_values(copies@) =~= view_values(els@));
                }
                Value::SetOf(copies)
            },
        }
    }
}

/// Three-way comparison in the total order: `-1`, `0` or `1` as `a` is
/// below, equal to, or above `b`.
pub(crate) fn value_cmp(a: &Value, b: &Value) -> (o: i8)
    ensures
        o == -1 || o == 0 || o == 1,
        o == -1 ==> glt(a@, b@),
        o == 0 ==> a@ == b@,
        o == 1 ==> glt(b@, a@),
    decreases *a, *b,
{
    match (a, b) {
        (Value::Bool(x), Value::Bool(y)) => {
            if *x == *y {
                0
            } else if *y {
                -1
            } else {
                1
            }
        },
        (Value::Bool(_), _) => -1,
        (Value::Int(x), Value::Int(y)) => {
            if *x < *y {
                -1
            } else if *x == *y {
                0
            } else {
                1
            }
        },
        (Value::Int(_), Value::Bool(_)) => 1,
        (Value::Int(_), Value::SetOf(_)) => -1,
        (Value::SetOf(sa), Value::SetOf(sb)) => {
            let ghost va = view_values(sa@);
            let ghost vb = view_values(sb@);
            proof {
                lemma_view_values(sa@);
                lemma_view_values(sb@);
            }
            let mut i: usize = 0;
            while i < sa.len() && i < sb.len()
                invariant
                    *a == Value::SetOf(*sa),
                    *b == Value::SetOf(*sb),
                    va == view_values(sa@),
                    vb == view_values(sb@),
                    va.len() == sa@.len(),
                    vb.len() == sb@.len(),
                    forall|j: int| 0 <= j < sa@.len() ==> va[j] == view_value(sa@[j]),
                    forall|j: int| 0 <= j < sb@.len() ==> vb[j] == view_value(sb@[j]),
                    i <= sa@.len(),
                    i <= sb@.len(),
                    forall|j: int| 0 <= j < i ==> va[j] == vb[j],
                decreases sa@.len() - i,
            {
                proof {
                    assert(*sa == a->SetOf_0);
                    assert(decreases_to!(*a => a->SetOf_0));
                    assert(decreases_to!(*sa => sa@));
                    assert(decreases_to!(sa@ => sa@[i as int]));
                    assert(decreases_to!(*a => sa@[i as int]));
                }
                let o = value_cmp(&sa[i], &sb[i]);
                if o != 0 {
                    proof {
                        lemma_seq_lt_skip(va, vb, i as int);
                        lemma_seq_lt_skip(vb, va, i as int);
                    }
                    return o;
                }
                i = i + 1;
            }
            proof {
                lemma_seq_lt_skip(va, vb, i as int);
                lemma_seq_lt_skip(vb, va, i as int);
            }
            if sa.len() < sb.len() {
                -1
            } else if sa.len() == sb.len() {
                proof {
                    assert(va =~= vb);
                }
                0
            } else {
                1
            }
        },
        (Value::SetOf(_), _) => 1,
    }
}

/// Equality test through [`value_cmp`].
pub(crate) fn value_eq(a: &Value, b: &Value) -> (r: bool)
    ensures
        r == (a@ == b@),
{
    let o = value_cmp(a, b);
    proof {
        lemma_glt_tri(a@, b@);
    }
    o == 0
}

/// Whether two member vectors mirror the same member sequence.
pub(crate) fn values_eq(a: &Vec<Value>, b: &Vec<Value>) -> (r: bool)
    ensures
        r == (view_values(a@) == view_values(b@)),
{
    let ghost va = view_values(a@);
    let ghost vb = view_values(b@);
    proof {
        lemma_view_values(a@);
        lemma_view_values(b@);
    }
    if a.len() != b.len() {
        return false;
    }
    let mut i: usize = 0;
    while i < a.len()
        invariant
            va == view_values(a@),
            vb == view_values(b@),
            va.len() == a@.len(),
            vb.len() == b@.len(),
            a@.len() == b@.len(),
            forall|j: int| 0 <= j < a@.len() ==> va[j] == view_value(a@[j]),
            forall|j: int| 0 <= j < b@.len() ==> vb[j] == view_value(b@[j]),
            i <= a@.len(),
            forall|j: int| 0 <= j < i ==> va[j] == vb[j],
        decreases a@.len() - i,
    {
        let e = value_eq(&a[i], &b[i]);
        if !e {
            proof {
                assert(va[i as int] != vb[i as int]);
            }
            return false;
        }
        i = i + 1;
    }
    proof {
        assert(va =~= vb);
    }
    true
}

/// Membership test: whether `x` is one of the members of `els`.
pub(crate) fn set_contains(els: &Vec<Value>, x: &Value) -> (r: bool)
    ensures
        r == view_values(els@).contains(x@),
{
    let ghost ve = view_values(els@);
    proof {
        lemma_view_values(els@);
    }
    let mut i: usize = 0;
    while i < els.len()
        invariant
            ve == view_values(els@),
            ve.len() == els@.len(),
            forall|j: int| 0 <= j < els@.len() ==> ve[j] == view_value(els@[j]),
            i <= els@.len(),
            forall|j: int| 0 <= j < i ==> ve[j] != x@,
        decreases els@.len() - i,
    {
        let e = value_eq(&els[i], x);
        if e {
            proof {
                assert(ve[i as int] == x@);
            }
            return true;
        }
        i = i + 1;
    }
    proof {
        if ve.contains(x@) {
            let j = choose|j: int| 0 <= j < ve.len() && ve[j] == x@;
            assert(false);
        }
    }
    false
}

/// Inserts a value into a canonical member vector, keeping it canonical.
pub(crate) fn set_insert(els: Vec<Value>, v: Value) -> (r: Vec<Value>)
    ensures
        view_values(r@) == ginsert(view_values(els@), v@),
{
    let ghost ve = view_values(els@);
    proof {
        lemma_view_values(els@);
    }
    let mut i: usize = 0;
    while i < els.len()
        invariant
            ve == view_values(els@),
            ve.len() == els@.len(),
            forall|j: int| 0 <= j < els@.len() ==> ve[j] == view_value(els@[j]),
            i <= els@.len(),
            forall|j: int| 0 <= j < i ==> glt(#[trigger] ve[j], v@),
        decreases els@.len() - i,
    {
        let o = value_cmp(&els[i], &v);
        if o == 0 {
            proof {
                lemma_ginsert_split(ve, v@, i as int);
                lemma_glt_tri(v@, v@);
                assert(ve.skip(i as int)[0] == ve[i as int]);
                assert(ginsert(ve.skip(i as int), v@) == ve.skip(i as int));
                assert(ve.take(i as int) + ve.skip(i as int) =~= ve);
            }
            return els;
        }
        if o == 1 {
            proof {
                lemma_ginsert_split(ve, v@, i as int);
                assert(ve.skip(i as int)[0] == ve[i as int]);
                assert(ginsert(ve.skip(i as int), v@) == seq![v@] + ve.skip(i as int));
            }
            let ghost old_els = els@;
            let mut els = els;
            els.insert(i, v);
            proof {
                lemma_view_values(els@);
                assert(els@ == old_els.insert(i as int, v));
                assert(view_values(els@) =~= ve.take(i as int) + (seq![v@] + ve.skip(i as int)))
                    by {
                    assert(forall|j: int| 0 <= j < i ==> els@[j] == old_els[j]);
                    assert(els@[i as int] == v);
                    assert(forall|j: int|
                        i < j < els@.len() ==> els@[j] == old_els[j - 1]);
                };
            }
            return els;
        }
        i = i + 1;
    }
    proof {
        lemma_ginsert_split(ve, v@, ve.len() as int);
        assert(ve.skip(ve.len() as int) =~= Seq::<GValue>::empty());
        assert(ginsert(Seq::<GValue>::empty(), v@) =~= seq![v@]);
    }
    let mut els = els;
    els.push(v);
    proof {
        lemma_view_values(els@);
        assert(view_values(els@) =~= ve.take(ve.len() as int) + seq![v@]);
    }
    els
}

/// Union of two canonical member vectors: each member of `b` inserted into
/// `a`.
pub(crate) fn set_union(a: Vec<Value>, b: &Vec<Value>) -> (r: Vec<Value>)
    ensures
        view_values(r@) == gunion(view_values(a@), view_values(b@)),
{
    let ghost va = view_values(a@);
    let ghost vb = view_values(b@);
    proof {
        lemma_view_values(b@);
    }
    let mut acc = a;
    let mut i: usize = 0;
    while i < b.len()
        invariant
            vb == view_values(b@),
            vb.len() == b@.len(),
            forall|j: int| 0 <= j < b@.len() ==> vb[j] == view_value(b@[j]),
            i <= b@.len(),
            view_values(acc@) == gunion(va, vb.take(i as int)),
        decreases b@.len() - i,
    {
        let x = b[i].clone();
        let ghost before = view_values(acc@);
        acc = set_insert(acc, x);
        proof {
            assert(vb.take(i + 1).drop_last() =~= vb.take(i as int));
            assert(vb.take(i + 1).last() == vb[i as int]);
            assert(gunion(va, vb.take(i + 1)) == ginsert(gunion(va, vb.take(i as int)), vb[i as int]));
        }
        i = i + 1;
    }
    proof {
        assert(vb.take(vb.len() as int) =~= vb);
    }
    acc
}

/// Difference of two member vectors: the members of `a` not contained in
/// `b`, in their original order.
pub(crate) fn set_diff(a: &Vec<Value>, b: &Vec<Value>) -> (r: Vec<Value>)
    ensures
        view_values(r@) == gdiff(view_values(a@), view_values(b@)),
{
    let ghost va = view_values(a@);
    let ghost vb = view_values(b@);
    proof {
        lemma_view_values(a@);
    }
    let mut acc: Vec<Value> = Vec::new();
    let mut i: usize = 0;
    while i < a.len()
        invariant
            va == view_values(a@),
            vb == view_values(b@),
            va.len() == a@.len(),
            forall|j: int| 0 <= j < a@.len() ==> va[j] == view_value(a@[j]),
            i <= a@.len(),
            view_values(acc@) == gdiff(va.take(i as int), vb),
        decreases a@.len() - i,
    {
        proof {
            assert(va.take(i + 1).drop_last() =~= va.take(i as int));
            assert(va.take(i + 1).last() == va[i as int]);
        }
        let inside = set_contains(b, &a[i]);
        if !inside {
            let x = a[i].clone();
            let ghost old_acc = acc@;
            let ghost before = view_values(acc@);
            acc.push(x);
            proof {
                assert(acc@.drop_last() =~= old_acc);
                assert(acc@.last() == x);
                assert(view_values(acc@) == before.push(va[i as int]));
            }
        }
        i = i + 1;
    }
    proof {
        assert(va.take(va.len() as int) =~= va);
    }
    acc
}

/// Whether every member of `l` is contained in `r`: the superset test.
pub(crate) fn set_all_in(l: &Vec<Value>, r: &Vec<Value>) -> (res: bool)
    ensures
        res == gsubset(view_values(l@), view_values(r@)),
{
    let ghost vl = view_values(l@);
    let ghost vr = view_values(r@);
    proof {
        lemma_view_values(l@);
    }
    let mut i: usize = 0;
    while i < l.len()
        invariant
            vl == view_values(l@),
            vr == view_values(r@),
            vl.len() == l@.len(),
            forall|j: int| 0 <= j < l@.len() ==> vl[j] == view_value(l@[j]),
            i <= l@.len(),
            forall|j: int| 0 <= j < i ==> vr.contains(#[trigger] vl[j]),
        decreases l@.len() - i,
    {
        let inside = set_contains(r, &l[i]);
        if !inside {
            proof {
                assert(!vr.contains(vl[i as int]));
            }
            return false;
        }
        i = i + 1;
    }
    true
}

} // verus!
