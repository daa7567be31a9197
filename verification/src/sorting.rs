use vstd::prelude::*;

use crate::types::{
    val_equiv, val_equiv_exec, val_le, val_le_exec, lemma_val_le_antisym, lemma_val_le_total,
    lemma_val_le_trans, Value,
};

verus! {

/// All values of a row are well formed.
pub open spec fn row_wf(a: Seq<Value>) -> bool {
    forall|i: int| 0 <= i < a.len() ==> a[i].wf()
}

/// Lexicographic order on key rows, with one direction flag per position:
/// an ascending position orders by `val_le`, a descending one by its reverse.
pub open spec fn row_le(a: Seq<Value>, b: Seq<Value>, asc: Seq<bool>) -> bool
    decreases asc.len(),
{
    if asc.len() == 0 || a.len() == 0 || b.len() == 0 {
        true
    } else if val_equiv(a[0], b[0]) {
        row_le(a.skip(1), b.skip(1), asc.skip(1))
    } else if asc[0] {
        val_le(a[0], b[0])
    } else {
        val_le(b[0], a[0])
    }
}

/// Two key rows that agree, value by value, on every compared position.
pub open spec fn row_equiv(a: Seq<Value>, b: Seq<Value>, asc: Seq<bool>) -> bool
    decreases asc.len(),
{
    if asc.len() == 0 || a.len() == 0 || b.len() == 0 {
        true
    } else {
        val_equiv(a[0], b[0]) && row_equiv(a.skip(1), b.skip(1), asc.skip(1))
    }
}

/// `row_le` is total.
pub proof fn lemma_row_le_total(a: Seq<Value>, b: Seq<Value>, asc: Seq<bool>)
    requires
        row_wf(a),
        row_wf(b),
    ensures
        row_le(a, b, asc) || row_le(b, a, asc),
    decreases asc.len(),
{
    if asc.len() != 0 && a.len() != 0 && b.len() != 0 {
        if val_equiv(a[0], b[0]) {
            assert(val_equiv(b[0], a[0])) by {
                lemma_val_equiv_sym(a[0], b[0]);
            }
            assert(row_wf(a.skip(1))) by {
                assert(forall|i: int| 0 <= i < a.skip(1).len() ==> a.skip(1)[i] == a[i + 1]);
            }
            assert(row_wf(b.skip(1))) by {
                assert(forall|i: int| 0 <= i < b.skip(1).len() ==> b.skip(1)[i] == b[i + 1]);
            }
            lemma_row_le_total(a.skip(1), b.skip(1), asc.skip(1));
        } else {
            lemma_val_le_total(a[0], b[0]);
            assert(!val_equiv(b[0], a[0])) by {
                lemma_val_equiv_sym(a[0], b[0]);
            }
        }
    }
}

/// Semantic value equality is symmetric.
pub proof fn lemma_val_equiv_sym(a: Value, b: Value)
    ensures
        val_equiv(a, b) == val_equiv(b, a),
{
    match (a, b) {
        (Value::Number(x), Value::Number(y)) => {
            if x.same_value(y) {
                crate::numeric::lemma_rat_eq_sym(x.num(), x.scale as int, y.num(), y.scale as int);
            }
            if y.same_value(x) {
                crate::numeric::lemma_rat_eq_sym(y.num(), y.scale as int, x.num(), x.scale as int);
            }
        },
        _ => {},
    }
}

/// Semantic value equality is transitive.
pub proof fn lemma_val_equiv_trans(a: Value, b: Value, c: Value)
    requires
        val_equiv(a, b),
        val_equiv(b, c),
    ensures
        val_equiv(a, c),
{
    match (a, b, c) {
        (Value::Number(x), Value::Number(y), Value::Number(z)) => {
            crate::numeric::lemma_rat_eq_trans(
                x.num(),
                x.scale as int,
                y.num(),
                y.scale as int,
                z.num(),
                z.scale as int,
            );
        },
        _ => {},
    }
}

/// Equivalent values stand below each other in the order.
pub proof fn lemma_equiv_le(a: Value, b: Value)
    requires
        a.wf(),
        b.wf(),
        val_equiv(a, b),
    ensures
        val_le(a, b),
        val_le(b, a),
{
    match (a, b) {
        (Value::Text(x), Value::Text(y)) => {
            lemma_chars_le_refl(x@);
        },
        (Value::Number(x), Value::Number(y)) => {
            crate::numeric::lemma_rat_eq_at(
                x.num(),
                x.scale as int,
                y.num(),
                y.scale as int,
                x.scale as int + y.scale as int,
            );
        },
        _ => {},
    }
}

/// The lexicographic order on characters is reflexive.
pub proof fn lemma_chars_le_refl(a: Seq<char>)
    ensures
        crate::strutil::chars_le(a, a),
    decreases a.len(),
{
    if a.len() > 0 {
        lemma_chars_le_refl(a.skip(1));
    }
}

/// An equivalent value compares the same way against any third value.
pub proof fn lemma_val_le_congr(a: Value, b: Value, c: Value)
    requires
        a.wf(),
        b.wf(),
        c.wf(),
        val_equiv(a, b),
    ensures
        val_le(a, c) == val_le(b, c),
        val_le(c, a) == val_le(c, b),
{
    lemma_equiv_le(a, b);
    if val_le(a, c) {
        lemma_val_le_trans(b, a, c);
    }
    if val_le(b, c) {
        lemma_val_le_trans(a, b, c);
    }
    if val_le(c, a) {
        lemma_val_le_trans(c, a, b);
    }
    if val_le(c, b) {
        lemma_val_le_trans(c, b, a);
    }
}

/// `row_le` is transitive.
pub proof fn lemma_row_le_trans(a: Seq<Value>, b: Seq<Value>, c: Seq<Value>, asc: Seq<bool>)
    requires
        row_wf(a),
        row_wf(b),
        row_wf(c),
        a.len() == b.len(),
        b.len() == c.len(),
        row_le(a, b, asc),
        row_le(b, c, asc),
    ensures
        row_le(a, c, asc),
    decreases asc.len(),
{
    if asc.len() != 0 && a.len() != 0 && b.len() != 0 && c.len() != 0 {
        assert(row_wf(a.skip(1)) && row_wf(b.skip(1)) && row_wf(c.skip(1))) by {
            assert(forall|i: int| 0 <= i < a.skip(1).len() ==> a.skip(1)[i] == a[i + 1]);
            assert(forall|i: int| 0 <= i < b.skip(1).len() ==> b.skip(1)[i] == b[i + 1]);
            assert(forall|i: int| 0 <= i < c.skip(1).len() ==> c.skip(1)[i] == c[i + 1]);
        }
        let x = a[0];
        let y = b[0];
        let z = c[0];
        if val_equiv(x, y) && val_equiv(y, z) {
            lemma_val_equiv_trans(x, y, z);
            lemma_row_le_trans(a.skip(1), b.skip(1), c.skip(1), asc.skip(1));
        } else if val_equiv(x, y) {
            // the second comparison decides; x compares like y
            lemma_val_equiv_sym(x, y);
            lemma_val_le_congr(x, y, z);
            if val_equiv(x, z) {
                lemma_val_equiv_sym(x, z);
                lemma_val_equiv_trans(y, x, z);
                assert(false);
            }
        } else if val_equiv(y, z) {
            // the first comparison decides; z compares like y
            lemma_val_le_congr(y, z, x);
            if val_equiv(x, z) {
                lemma_val_equiv_sym(y, z);
                lemma_val_equiv_trans(x, z, y);
                assert(false);
            }
        } else {
            if val_equiv(x, z) {
                lemma_equiv_le(x, z);
                if asc[0] {
                    // le(x,y), le(y,z), le(z,x) force x and y together
                    lemma_val_le_trans(y, z, x);
                    lemma_val_le_antisym(x, y);
                } else {
                    lemma_val_le_trans(x, z, y);
                    lemma_val_le_antisym(x, y);
                }
                assert(false);
            }
            if asc[0] {
                lemma_val_le_trans(x, y, z);
            } else {
                lemma_val_le_trans(z, y, x);
            }
        }
    }
}

/// Equivalent key rows stand below each other.
pub proof fn lemma_row_equiv_le(a: Seq<Value>, b: Seq<Value>, asc: Seq<bool>)
    requires
        row_wf(a),
        row_wf(b),
        row_equiv(a, b, asc),
    ensures
        row_le(a, b, asc),
        row_le(b, a, asc),
    decreases asc.len(),
{
    if asc.len() != 0 && a.len() != 0 && b.len() != 0 {
        assert(row_wf(a.skip(1)) && row_wf(b.skip(1))) by {
            assert(forall|i: int| 0 <= i < a.skip(1).len() ==> a.skip(1)[i] == a[i + 1]);
            assert(forall|i: int| 0 <= i < b.skip(1).len() ==> b.skip(1)[i] == b[i + 1]);
        }
        lemma_val_equiv_sym(a[0], b[0]);
        lemma_equiv_le(a[0], b[0]);
        lemma_row_equiv_le(a.skip(1), b.skip(1), asc.skip(1));
    }
}

/// Decides `row_le` on two key rows.
pub fn row_le_exec(a: &Vec<Value>, b: &Vec<Value>, asc: &Vec<bool>) -> (r: bool)
    requires
        row_wf(a@),
        row_wf(b@),
    ensures
        r == row_le(a@, b@, asc@),
{
    let mut i: usize = 0;
    proof {
        assert(a@.skip(0) =~= a@);
        assert(b@.skip(0) =~= b@);
        assert(asc@.skip(0) =~= asc@);
    }
    loop
        invariant
            row_wf(a@),
            row_wf(b@),
            i <= a@.len(),
            i <= b@.len(),
            i <= asc@.len(),
            row_le(a@, b@, asc@) == row_le(a@.skip(i as int), b@.skip(i as int), asc@.skip(i as int)),
        decreases asc@.len() - i,
    {
        if i == asc.len() || i == a.len() || i == b.len() {
            proof {
                assert(row_le(a@.skip(i as int), b@.skip(i as int), asc@.skip(i as int)));
            }
            return true;
        }
        proof {
            assert(a@.skip(i as int)[0] == a@[i as int]);
            assert(b@.skip(i as int)[0] == b@[i as int]);
            assert(asc@.skip(i as int)[0] == asc@[i as int]);
        }
        if val_equiv_exec(&a[i], &b[i]) {
            proof {
                assert(a@.skip(i as int).skip(1) =~= a@.skip(i + 1));
                assert(b@.skip(i as int).skip(1) =~= b@.skip(i + 1));
                assert(asc@.skip(i as int).skip(1) =~= asc@.skip(i + 1));
            }
            i = i + 1;
        } else if asc[i] {
            return val_le_exec(&a[i], &b[i]);
        } else {
            return val_le_exec(&b[i], &a[i]);
        }
    }
}

/// The identity permutation on `n` positions.
pub open spec fn identity_perm(n: int) -> Seq<usize> {
    Seq::new(n as nat, |i: int| i as usize)
}

/// The key row of entry `i`.
pub open spec fn key_of(keys: Seq<Vec<Value>>, i: int) -> Seq<Value> {
    keys[i]@
}

/// All key rows are well formed.
pub open spec fn keys_wf(keys: Seq<Vec<Value>>) -> bool {
    forall|i: int| 0 <= i < keys.len() ==> row_wf(#[trigger] keys[i]@)
}

/// The input, viewed through the permutation, is sorted.
pub open spec fn perm_sorted(out: Seq<usize>, keys: Seq<Vec<Value>>, asc: Seq<bool>) -> bool {
    forall|i: int, j: int|
        0 <= i < j < out.len() ==> row_le(
            #[trigger] key_of(keys, out[i] as int),
            #[trigger] key_of(keys, out[j] as int),
            asc,
        )
}

/// Ties keep their original order under the permutation.
pub open spec fn perm_stable(out: Seq<usize>, keys: Seq<Vec<Value>>, asc: Seq<bool>) -> bool {
    forall|i: int, j: int|
        0 <= i < j < out.len() && row_equiv(
            #[trigger] key_of(keys, out[i] as int),
            #[trigger] key_of(keys, out[j] as int),
            asc,
        ) ==> out[i] < out[j]
}

/// The permutation holds distinct positions below `n`.
pub open spec fn perm_ok(out: Seq<usize>, n: int) -> bool {
    &&& forall|i: int| 0 <= i < out.len() ==> (#[trigger] out[i]) < n
    &&& forall|i: int, j: int| 0 <= i < j < out.len() ==> out[i] != out[j]
}

/// Sorts the positions `0..keys.len()` by their key rows: a stable sort in
/// the lexicographic order given by `asc`. On input already in order it
/// returns the identity permutation.
pub fn stable_sort_indices(keys: &Vec<Vec<Value>>, asc: &Vec<bool>) -> (r: Vec<usize>)
    requires
        keys_wf(keys@),
        forall|i: int| 0 <= i < keys@.len() ==> (#[trigger] keys@[i]@).len() == asc@.len(),
    ensures
        r@.len() == keys@.len(),
        perm_ok(r@, keys@.len() as int),
        perm_sorted(r@, keys@, asc@),
        perm_stable(r@, keys@, asc@),
        (forall|i: int, j: int|
            0 <= i < j < keys@.len() ==> row_le(
                #[trigger] key_of(keys@, i),
                #[trigger] key_of(keys@, j),
                asc@,
            )) ==> r@ == identity_perm(keys@.len() as int),
{
    let n = keys.len();
    let ghost all_sorted = forall|i: int, j: int|
        0 <= i < j < keys@.len() ==> row_le(
            #[trigger] key_of(keys@, i),
            #[trigger] key_of(keys@, j),
            asc@,
        );
    let mut out: Vec<usize> = Vec::new();
    let mut k: usize = 0;
    while k < n
        invariant
            n == keys@.len(),
            keys_wf(keys@),
            forall|i: int| 0 <= i < keys@.len() ==> (#[trigger] keys@[i]@).len() == asc@.len(),
            k <= n,
            out@.len() == k,
            forall|i: int| 0 <= i < out@.len() ==> (#[trigger] out@[i]) < k,
            forall|i: int, j: int| 0 <= i < j < out@.len() ==> out@[i] != out@[j],
            perm_sorted(out@, keys@, asc@),
            perm_stable(out@, keys@, asc@),
            all_sorted == (forall|i: int, j: int|
                0 <= i < j < keys@.len() ==> row_le(
                    #[trigger] key_of(keys@, i),
                    #[trigger] key_of(keys@, j),
                    asc@,
                )),
            all_sorted ==> out@ == identity_perm(k as int),
        decreases n - k,
    {
        let mut p: usize = out.len();
        while p > 0 && !row_le_exec(&keys[out[p - 1]], &keys[k], asc)
            invariant
                n == keys@.len(),
                keys_wf(keys@),
                forall|i: int| 0 <= i < keys@.len() ==> (#[trigger] keys@[i]@).len() == asc@.len(),
                k < n,
                out@.len() == k,
                forall|i: int| 0 <= i < out@.len() ==> (#[trigger] out@[i]) < k,
                p <= k,
                forall|q: int|
                    p <= q < out@.len() ==> !row_le(
                        key_of(keys@, #[trigger] out@[q] as int),
                        key_of(keys@, k as int),
                        asc@,
                    ),
            decreases p,
        {
            p = p - 1;
        }
        let ghost old_out = out@;
        out.insert(p, k);
        proof {
            let s2 = out@;
            assert(s2 == old_out.insert(p as int, k));
            assert(s2.len() == k + 1);
            assert(forall|t: int| 0 <= t < p ==> s2[t] == old_out[t]);
            assert(s2[p as int] == k);
            assert(forall|t: int| p < t < s2.len() ==> s2[t] == old_out[t - 1]);
            // elements shifted up are strictly after the new key
            assert(forall|t: int|
                p < t < s2.len() ==> !row_le(
                    key_of(keys@, #[trigger] s2[t] as int),
                    key_of(keys@, k as int),
                    asc@,
                ));
            // and therefore at least its equals, by totality
            assert forall|t: int| p < t < s2.len() implies row_le(
                key_of(keys@, k as int),
                key_of(keys@, s2[t] as int),
                asc@,
            ) by {
                lemma_row_le_total(key_of(keys@, s2[t] as int), key_of(keys@, k as int), asc@);
            }
            // the element just before the insertion point is at or below the key
            if p > 0 {
                assert(row_le(key_of(keys@, old_out[p - 1] as int), key_of(keys@, k as int), asc@));
            }
            // sortedness of the extended permutation
            assert forall|i: int, j: int|
                0 <= i < j < s2.len() implies row_le(
                #[trigger] key_of(keys@, s2[i] as int),
                #[trigger] key_of(keys@, s2[j] as int),
                asc@,
            ) by {
                if j < p {
                } else if i < p && j == p {
                    if i < p - 1 {
                        lemma_row_le_trans(
                            key_of(keys@, old_out[i] as int),
                            key_of(keys@, old_out[p - 1] as int),
                            key_of(keys@, k as int),
                            asc@,
                        );
                    }
                } else if i < p && j > p {
                } else if i == p {
                } else {
                }
            }
            // stability of the extended permutation
            assert forall|i: int, j: int|
                0 <= i < j < s2.len() && row_equiv(
                    #[trigger] key_of(keys@, s2[i] as int),
                    #[trigger] key_of(keys@, s2[j] as int),
                    asc@,
                ) implies s2[i] < s2[j] by {
                if i == p && j > p {
                    lemma_row_equiv_le(
                        key_of(keys@, s2[i] as int),
                        key_of(keys@, s2[j] as int),
                        asc@,
                    );
                }
            }
            // sorted input leaves the identity untouched
            if all_sorted {
                assert(old_out == identity_perm(k as int));
                if k > 0 {
                    assert(key_of(keys@, old_out[k - 1] as int) == key_of(keys@, k - 1));
                    assert(row_le(key_of(keys@, k - 1), key_of(keys@, k as int), asc@));
                    assert(p == k);
                }
                assert(s2 =~= identity_perm((k + 1) as int));
            }
        }
        k = k + 1;
    }
    out
}

} // verus!
