//! Keyed sums: records `(key, a, b)` are grouped by key, and each group's
//! `a` and `b` are added up.

use vstd::prelude::*;

verus! {

/// Largest magnitude of a record value.
pub const COTA_VALOR: i128 = 0x1_0000_0000_0000_0000_0000_0000;

/// Largest number of records.
pub const COTA_REGISTROS: usize = 0x1000_0000;

/// Sum of the `a` values of the records with key `c`.
pub open spec fn suma_a(r: Seq<(i64, i128, i128)>, c: int) -> int
    decreases r.len(),
{
    if r.len() == 0 {
        0
    } else {
        suma_a(r.drop_last(), c) + if r.last().0 == c {
            r.last().1 as int
        } else {
            0
        }
    }
}

/// Sum of the `b` values of the records with key `c`.
pub open spec fn suma_b(r: Seq<(i64, i128, i128)>, c: int) -> int
    decreases r.len(),
{
    if r.len() == 0 {
        0
    } else {
        suma_b(r.drop_last(), c) + if r.last().0 == c {
            r.last().2 as int
        } else {
            0
        }
    }
}

/// Sum of all `a` values.
pub open spec fn total_a(r: Seq<(i64, i128, i128)>) -> int
    decreases r.len(),
{
    if r.len() == 0 {
        0
    } else {
        total_a(r.drop_last()) + r.last().1
    }
}

/// Sum of all `b` values.
pub open spec fn total_b(r: Seq<(i64, i128, i128)>) -> int
    decreases r.len(),
{
    if r.len() == 0 {
        0
    } else {
        total_b(r.drop_last()) + r.last().2
    }
}

/// Some record has key `c`.
pub open spec fn tiene_clave(r: Seq<(i64, i128, i128)>, c: int) -> bool {
    exists|i: int| 0 <= i < r.len() && r[i].0 == c
}

/// Strictly increasing keys.
pub open spec fn ordenada(k: Seq<i64>) -> bool {
    forall|i: int, j: int| 0 <= i < j < k.len() ==> k[i] < k[j]
}

/// Few enough records, each with values of bounded magnitude, so that no sum
/// leaves the range of `i128`.
pub open spec fn acotados(r: Seq<(i64, i128, i128)>) -> bool {
    &&& r.len() <= COTA_REGISTROS
    &&& forall|i: int|
        0 <= i < r.len() ==> -COTA_VALOR <= #[trigger] r[i].1 <= COTA_VALOR && -COTA_VALOR
            <= r[i].2 <= COTA_VALOR
}

/// Sum over the keys of `k` of the per-key `a` sums.
pub open spec fn suma_a_por_claves(r: Seq<(i64, i128, i128)>, k: Seq<i64>) -> int
    decreases k.len(),
{
    if k.len() == 0 {
        0
    } else {
        suma_a_por_claves(r, k.drop_last()) + suma_a(r, k.last() as int)
    }
}

/// Sum over the keys of `k` of the per-key `b` sums.
pub open spec fn suma_b_por_claves(r: Seq<(i64, i128, i128)>, k: Seq<i64>) -> int
    decreases k.len(),
{
    if k.len() == 0 {
        0
    } else {
        suma_b_por_claves(r, k.drop_last()) + suma_b(r, k.last() as int)
    }
}

/// Inserts `c` into the strictly increasing keys `k`, unless it is there.
pub fn insertar_clave(k: &mut Vec<i64>, c: i64)
    requires
        ordenada(old(k)@),
    ensures
        ordenada(final(k)@),
        forall|x: i64| final(k)@.contains(x) <==> (old(k)@.contains(x) || x == c),
{
    let n = k.len();
    let mut i: usize = 0;
    while i < n && k[i] < c
        invariant
            n == k.len(),
            k@ == old(k)@,
            i <= n,
            forall|t: int| 0 <= t < i ==> k@[t] < c,
        decreases n - i,
    {
        i = i + 1;
    }
    if i < n && k[i] == c {
        assert(k@[i as int] == c);
        return;
    }
    let ghost viejo = k@;
    k.insert(i, c);
    assert forall|x: i64| k@.contains(x) <==> (viejo.contains(x) || x == c) by {
        if k@.contains(x) {
            let t = choose|t: int| 0 <= t < k@.len() && k@[t] == x;
            if t < i {
                assert(viejo[t] == x);
            } else if t > i {
                assert(viejo[t - 1] == x);
            }
        }
        if viejo.contains(x) {
            let t = choose|t: int| 0 <= t < viejo.len() && viejo[t] == x;
            if t < i {
                assert(k@[t] == x);
            } else {
                assert(k@[t + 1] == x);
            }
        }
        if x == c {
            assert(k@[i as int] == x);
        }
    }
    assert(viejo == old(k)@);
    assert(forall|x: i64| k@.contains(x) <==> (old(k)@.contains(x) || x == c));
    assert(ordenada(k@));
}

/// The per-key sums of `a` and `b` over the records with key `c`.
pub fn sumar_clave(r: &Vec<(i64, i128, i128)>, c: i64) -> (s: (i128, i128))
    requires
        acotados(r@),
    ensures
        s.0 == suma_a(r@, c as int),
        s.1 == suma_b(r@, c as int),
        -0x1000_0000_0000_0000_0000_0000_0000_0000 <= s.0 <= 0x1000_0000_0000_0000_0000_0000_0000_0000,
        -0x1000_0000_0000_0000_0000_0000_0000_0000 <= s.1 <= 0x1000_0000_0000_0000_0000_0000_0000_0000,
{
    let mut a: i128 = 0;
    let mut b: i128 = 0;
    let mut i: usize = 0;
    while i < r.len()
        invariant
            acotados(r@),
            i <= r.len(),
            a == suma_a(r@.take(i as int), c as int),
            b == suma_b(r@.take(i as int), c as int),
            -i * COTA_VALOR <= a <= i * COTA_VALOR,
            -i * COTA_VALOR <= b <= i * COTA_VALOR,
        decreases r.len() - i,
    {
        proof {
            assert(r@.take(i + 1).drop_last() =~= r@.take(i as int));
            assert(-COTA_VALOR <= r@[i as int].1 <= COTA_VALOR);
        }
        if r[i].0 == c {
            a = a + r[i].1;
            b = b + r[i].2;
        }
        i = i + 1;
    }
    assert(r@.take(r.len() as int) =~= r@);
    (a, b)
}

/// The distinct keys of the records, increasing.
pub fn claves_de(r: &Vec<(i64, i128, i128)>, k: &mut Vec<i64>)
    requires
        ordenada(old(k)@),
    ensures
        ordenada(final(k)@),
        forall|x: i64|
            #![trigger final(k)@.contains(x)]
            #![trigger old(k)@.contains(x)]
            #![trigger tiene_clave(r@, x as int)]
            final(k)@.contains(x) <==> (old(k)@.contains(x) || tiene_clave(r@, x as int)),
{
    let ghost inicial = k@;
    let mut i: usize = 0;
    while i < r.len()
        invariant
            i <= r.len(),
            inicial == old(k)@,
            ordenada(k@),
            forall|x: i64|
                k@.contains(x) <==> (inicial.contains(x) || exists|t: int|
                    0 <= t < i && r@[t].0 == x),
        decreases r.len() - i,
    {
        let ghost antes = k@;
        assert(forall|x: i64|
            antes.contains(x) <==> (inicial.contains(x) || exists|t: int|
                0 <= t < i && r@[t].0 == x));
        insertar_clave(k, r[i].0);
        assert forall|x: i64|
            k@.contains(x) <==> (inicial.contains(x) || exists|t: int|
                0 <= t < i + 1 && r@[t].0 == x) by {
            if exists|t: int| 0 <= t < i + 1 && r@[t].0 == x {
                let t = choose|t: int| 0 <= t < i + 1 && r@[t].0 == x;
                if t < i {
                    assert(antes.contains(x));
                }
            }
        }
        i = i + 1;
    }
    assert forall|x: i64| k@.contains(x) <==> (old(k)@.contains(x) || tiene_clave(r@, x as int)) by {
        assert(k@.contains(x) <==> (inicial.contains(x) || exists|t: int|
            0 <= t < i && r@[t].0 == x));
        if tiene_clave(r@, x as int) {
            let t = choose|t: int| 0 <= t < r@.len() && r@[t].0 == x;
            assert(exists|t: int| 0 <= t < r.len() && r@[t].0 == x);
        }
        if k@.contains(x) && !old(k)@.contains(x) {
            assert(exists|t: int| 0 <= t < r.len() && r@[t].0 == x);
            let t = choose|t: int| 0 <= t < r.len() && r@[t].0 == x;
            assert(r@[t].0 == x as int);
        }
    }
}

/// The ungrouped sums of `a` and `b`.
pub fn sumar_todo(r: &Vec<(i64, i128, i128)>) -> (s: (i128, i128))
    requires
        acotados(r@),
    ensures
        s.0 == total_a(r@),
        s.1 == total_b(r@),
        -0x1000_0000_0000_0000_0000_0000_0000_0000 <= s.0 <= 0x1000_0000_0000_0000_0000_0000_0000_0000,
        -0x1000_0000_0000_0000_0000_0000_0000_0000 <= s.1 <= 0x1000_0000_0000_0000_0000_0000_0000_0000,
{
    let mut a: i128 = 0;
    let mut b: i128 = 0;
    let mut i: usize = 0;
    while i < r.len()
        invariant
            acotados(r@),
            i <= r.len(),
            a == total_a(r@.take(i as int)),
            b == total_b(r@.take(i as int)),
            -i * COTA_VALOR <= a <= i * COTA_VALOR,
            -i * COTA_VALOR <= b <= i * COTA_VALOR,
        decreases r.len() - i,
    {
        proof {
            assert(r@.take(i + 1).drop_last() =~= r@.take(i as int));
            assert(-COTA_VALOR <= r@[i as int].1 <= COTA_VALOR);
        }
        a = a + r[i].1;
        b = b + r[i].2;
        i = i + 1;
    }
    assert(r@.take(r.len() as int) =~= r@);
    (a, b)
}

proof fn lemma_suma_a_push(r: Seq<(i64, i128, i128)>, x: (i64, i128, i128), k: Seq<i64>)
    requires
        ordenada(k),
        k.contains(x.0),
    ensures
        suma_a_por_claves(r.push(x), k) == suma_a_por_claves(r, k) + x.1,
        suma_b_por_claves(r.push(x), k) == suma_b_por_claves(r, k) + x.2,
    decreases k.len(),
{
    let u = r.push(x);
    assert(u.drop_last() =~= r);
    let j = k.drop_last();
    if k.last() == x.0 {
        lemma_suma_a_push_ausente(r, x, j);
    } else {
        let t = choose|t: int| 0 <= t < k.len() && k[t] == x.0;
        assert(j[t] == x.0);
        lemma_suma_a_push(r, x, j);
    }
}

proof fn lemma_suma_a_push_ausente(r: Seq<(i64, i128, i128)>, x: (i64, i128, i128), k: Seq<i64>)
    requires
        !k.contains(x.0),
    ensures
        suma_a_por_claves(r.push(x), k) == suma_a_por_claves(r, k),
        suma_b_por_claves(r.push(x), k) == suma_b_por_claves(r, k),
    decreases k.len(),
{
    let u = r.push(x);
    assert(u.drop_last() =~= r);
    if k.len() > 0 {
        let j = k.drop_last();
        assert(!j.contains(x.0)) by {
            if j.contains(x.0) {
                let t = choose|t: int| 0 <= t < j.len() && j[t] == x.0;
                assert(k[t] == x.0);
            }
        }
        assert(k[k.len() - 1] != x.0);
        lemma_suma_a_push_ausente(r, x, j);
    }
}

proof fn lemma_por_claves_vacio(k: Seq<i64>)
    ensures
        suma_a_por_claves(Seq::empty(), k) == 0,
        suma_b_por_claves(Seq::empty(), k) == 0,
    decreases k.len(),
{
    if k.len() > 0 {
        lemma_por_claves_vacio(k.drop_last());
    }
}

/// Grouping loses and invents nothing: when `k` holds distinct keys and every
/// record's key is among them, the per-key sums over `k` add up to the
/// ungrouped sums.
pub proof fn lemma_particion(r: Seq<(i64, i128, i128)>, k: Seq<i64>)
    requires
        ordenada(k),
        forall|i: int| 0 <= i < r.len() ==> k.contains(#[trigger] r[i].0),
    ensures
        suma_a_por_claves(r, k) == total_a(r),
        suma_b_por_claves(r, k) == total_b(r),
    decreases r.len(),
{
    if r.len() == 0 {
        lemma_por_claves_vacio(k);
        assert(r =~= Seq::<(i64, i128, i128)>::empty());
    } else {
        let p = r.drop_last();
        assert forall|i: int| 0 <= i < p.len() implies k.contains(#[trigger] p[i].0) by {
            assert(p[i] == r[i]);
        }
        lemma_particion(p, k);
        assert(r =~= p.push(r.last()));
        assert(k.contains(r[r.len() - 1].0));
        lemma_suma_a_push(p, r.last(), k);
        assert(suma_a_por_claves(p, k) == total_a(p));
        assert(suma_a_por_claves(r, k) == suma_a_por_claves(p, k) + r.last().1);
        assert(total_a(r) == total_a(p) + r.last().1);
        assert(total_b(r) == total_b(p) + r.last().2);
    }
}


/// Two sequences that are strictly increasing under the same irreflexive and
/// asymmetric order `lt` and hold the same elements are equal.
pub proof fn lemma_ordenadas_iguales_por<A>(a: Seq<A>, b: Seq<A>, lt: spec_fn(A, A) -> bool)
    requires
        forall|x: A| !#[trigger] lt(x, x),
        forall|x: A, y: A| #[trigger] lt(x, y) ==> !lt(y, x),
        forall|i: int, j: int| 0 <= i < j < a.len() ==> lt(a[i], a[j]),
        forall|i: int, j: int| 0 <= i < j < b.len() ==> lt(b[i], b[j]),
        forall|x: A| a.contains(x) <==> b.contains(x),
    ensures
        a == b,
    decreases a.len() + b.len(),
{
    if a.len() == 0 {
        if b.len() > 0 {
            assert(b.contains(b[0]));
        }
        assert(a =~= b);
    } else if b.len() == 0 {
        assert(a.contains(a[0]));
    } else {
        let x = a.last();
        let y = b.last();
        assert(a.contains(x));
        assert(b.contains(y));
        let i = choose|i: int| 0 <= i < b.len() && b[i] == x;
        let j = choose|j: int| 0 <= j < a.len() && a[j] == y;
        if i < b.len() - 1 {
            assert(lt(x, y));
            if j < a.len() - 1 {
                assert(lt(y, x));
            } else {
                assert(lt(x, x));
            }
        }
        assert(i == b.len() - 1 || x == y);
        assert(x == y);
        let a2 = a.drop_last();
        let b2 = b.drop_last();
        assert forall|z: A| a2.contains(z) <==> b2.contains(z) by {
            if a2.contains(z) {
                let t = choose|t: int| 0 <= t < a2.len() && a2[t] == z;
                assert(a[t] == z);
                assert(lt(z, x));
                assert(b.contains(z));
                let u = choose|u: int| 0 <= u < b.len() && b[u] == z;
                if u == b.len() - 1 {
                    assert(lt(x, x));
                }
                assert(b2[u] == z);
            }
            if b2.contains(z) {
                let t = choose|t: int| 0 <= t < b2.len() && b2[t] == z;
                assert(b[t] == z);
                assert(lt(z, y));
                assert(a.contains(z));
                let u = choose|u: int| 0 <= u < a.len() && a[u] == z;
                if u == a.len() - 1 {
                    assert(lt(y, y));
                }
                assert(a2[u] == z);
            }
        }
        assert forall|s: int, t: int| 0 <= s < t < a2.len() implies lt(a2[s], a2[t]) by {
            assert(a2[s] == a[s] && a2[t] == a[t]);
        }
        assert forall|s: int, t: int| 0 <= s < t < b2.len() implies lt(b2[s], b2[t]) by {
            assert(b2[s] == b[s] && b2[t] == b[t]);
        }
        lemma_ordenadas_iguales_por(a2, b2, lt);
        assert(a =~= a2.push(x));
        assert(b =~= b2.push(y));
    }
}

} // verus!
