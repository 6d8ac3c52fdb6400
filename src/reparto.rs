//! Largest-remainder (Hamilton) allocation of an integer total among weighted
//! buckets, and the split of a bucket total into unit prices.

use vstd::prelude::*;
use crate::error::LedgerError;

verus! {

/// Sum of the weights of `p`.
pub open spec fn suma_pesos(p: Seq<(i64, i64)>) -> int
    decreases p.len(),
{
    if p.len() == 0 {
        0
    } else {
        suma_pesos(p.drop_last()) + p.last().1
    }
}

/// Sum of the amounts of an allocation.
pub open spec fn suma_montos(p: Seq<(i64, i64)>) -> int
    decreases p.len(),
{
    if p.len() == 0 {
        0
    } else {
        suma_montos(p.drop_last()) + p.last().1
    }
}

/// Floor share of a bucket of weight `peso` out of `suma`.
pub open spec fn base_de(total: int, peso: int, suma: int) -> int {
    (total * peso) / suma
}

/// Fractional part (scaled by `suma`) left over by `base_de`.
pub open spec fn resto_de(total: int, peso: int, suma: int) -> int {
    (total * peso) % suma
}

/// Sum of the floor shares of all buckets.
pub open spec fn suma_bases(total: int, p: Seq<(i64, i64)>, suma: int) -> int
    decreases p.len(),
{
    if p.len() == 0 {
        0
    } else {
        suma_bases(total, p.drop_last(), suma) + base_de(total, p.last().1 as int, suma)
    }
}

/// Valid input of the allocation: non-negative total and weights, positive weight sum.
pub open spec fn pesos_validos(total: int, p: Seq<(i64, i64)>) -> bool {
    &&& total >= 0
    &&& forall|i: int| 0 <= i < p.len() ==> p[i].1 >= 0
    &&& suma_pesos(p) > 0
}

/// Bucket `i` comes before bucket `j` in the order in which leftover units are
/// handed out: larger remainder first, earlier bucket on equal remainders.
pub open spec fn precede(total: int, p: Seq<(i64, i64)>, i: int, j: int) -> bool {
    let s = suma_pesos(p);
    ||| resto_de(total, p[i].1 as int, s) > resto_de(total, p[j].1 as int, s)
    ||| (resto_de(total, p[i].1 as int, s) == resto_de(total, p[j].1 as int, s) && i < j)
}

/// Bucket `i` of `out` received one unit above its floor share.
pub open spec fn recibe_extra(total: int, p: Seq<(i64, i64)>, out: Seq<(i64, i64)>, i: int) -> bool {
    out[i].1 == base_de(total, p[i].1 as int, suma_pesos(p)) + 1
}

/// `out` is the largest-remainder allocation of `total` over the buckets `p`:
/// same keys in the same order, each bucket gets its floor share or one more,
/// the extra units go to the buckets that come first in the remainder order,
/// and nothing is lost or invented.
pub open spec fn es_reparto(total: int, p: Seq<(i64, i64)>, out: Seq<(i64, i64)>) -> bool {
    let s = suma_pesos(p);
    &&& out.len() == p.len()
    &&& forall|i: int| 0 <= i < p.len() ==> #[trigger] out[i].0 == p[i].0
    &&& forall|i: int|
        0 <= i < p.len() ==> (#[trigger] out[i].1 == base_de(total, p[i].1 as int, s)
            || out[i].1 == base_de(total, p[i].1 as int, s) + 1)
    &&& forall|i: int, j: int|
        0 <= i < p.len() && 0 <= j < p.len() && #[trigger] recibe_extra(total, p, out, i)
            && !#[trigger] recibe_extra(total, p, out, j) ==> precede(total, p, i, j)
    &&& suma_montos(out) == total
}

/// Number of `true` entries of `s`.
pub open spec fn num_true(s: Seq<bool>) -> nat
    decreases s.len(),
{
    if s.len() == 0 {
        0
    } else {
        num_true(s.drop_last()) + if s.last() { 1nat } else { 0nat }
    }
}

/// Remainder order over a vector of remainders: larger first, earlier on ties.
pub open spec fn antes(r: Seq<i128>, i: int, j: int) -> bool {
    r[i] > r[j] || (r[i] == r[j] && i < j)
}

proof fn lemma_num_true_set(s: Seq<bool>, i: int)
    requires
        0 <= i < s.len(),
        !s[i],
    ensures
        num_true(s.update(i, true)) == num_true(s) + 1,
    decreases s.len(),
{
    let u = s.update(i, true);
    if i == s.len() - 1 {
        assert(u.drop_last() =~= s.drop_last());
    } else {
        assert(u.drop_last() =~= s.drop_last().update(i, true));
        lemma_num_true_set(s.drop_last(), i);
    }
}

proof fn lemma_num_true_falta(s: Seq<bool>)
    requires
        num_true(s) < s.len(),
    ensures
        exists|i: int| 0 <= i < s.len() && !s[i],
    decreases s.len(),
{
    if s.last() {
        lemma_num_true_falta(s.drop_last());
        let i = choose|i: int| 0 <= i < s.drop_last().len() && !s.drop_last()[i];
        assert(!s[i]);
    } else {
        assert(!s[s.len() - 1]);
    }
}

proof fn lemma_num_true_pos(s: Seq<bool>, i: int)
    requires
        0 <= i < s.len(),
        s[i],
    ensures
        num_true(s) >= 1,
    decreases s.len(),
{
    if i < s.len() - 1 {
        lemma_num_true_pos(s.drop_last(), i);
    }
}

/// Picks `faltan` positions, one at a time the first one with the largest
/// remainder among those not yet picked.
fn elegir_extras(restos: &Vec<i128>, faltan: usize) -> (extra: Vec<bool>)
    requires
        faltan <= restos.len(),
    ensures
        extra.len() == restos.len(),
        num_true(extra@) == faltan,
        forall|i: int, j: int|
            0 <= i < extra.len() && 0 <= j < extra.len() && #[trigger] extra@[i]
                && !#[trigger] extra@[j] ==> antes(restos@, i, j),
{
    let n = restos.len();
    let mut extra: Vec<bool> = Vec::new();
    let mut t: usize = 0;
    while t < n
        invariant
            t <= n,
            n == restos.len(),
            extra.len() == t,
            forall|i: int| 0 <= i < t ==> !extra@[i],
            num_true(extra@) == 0,
        decreases n - t,
    {
        proof {
            assert(extra@.push(false).drop_last() =~= extra@);
        }
        extra.push(false);
        t = t + 1;
    }
    let mut k: usize = 0;
    while k < faltan
        invariant
            k <= faltan,
            faltan <= n,
            n == restos.len(),
            extra.len() == n,
            num_true(extra@) == k,
            forall|i: int, j: int|
                0 <= i < n && 0 <= j < n && #[trigger] extra@[i] && !#[trigger] extra@[j]
                    ==> antes(restos@, i, j),
        decreases faltan - k,
    {
        proof {
            lemma_num_true_falta(extra@);
        }
        let mut best: usize = n;
        let mut j: usize = 0;
        while j < n
            invariant
                j <= n,
                n == restos.len(),
                extra.len() == n,
                best == n || (best < j && !extra@[best as int]),
                forall|u: int|
                    0 <= u < j && !#[trigger] extra@[u] ==> best != n && (best == u || antes(
                        restos@,
                        best as int,
                        u,
                    )),
            decreases n - j,
        {
            if !extra[j] && (best == n || restos[j] > restos[best]) {
                best = j;
            }
            j = j + 1;
        }
        assert(best != n);
        proof {
            lemma_num_true_set(extra@, best as int);
        }
        let ghost viejo = extra@;
        extra.set(best, true);
        assert forall|i: int, j: int|
            0 <= i < n && 0 <= j < n && #[trigger] extra@[i] && !#[trigger] extra@[j]
                implies antes(restos@, i, j) by {
            if i != best as int {
                assert(viejo[i] && !viejo[j]);
            }
        }
        k = k + 1;
    }
    extra
}

proof fn lemma_prefijo(p: Seq<(i64, i64)>, total: int, s: int, i: int)
    requires
        0 <= i < p.len(),
    ensures
        suma_pesos(p.take(i + 1)) == suma_pesos(p.take(i)) + p[i].1,
        suma_bases(total, p.take(i + 1), s) == suma_bases(total, p.take(i), s) + base_de(
            total,
            p[i].1 as int,
            s,
        ),
{
    assert(p.take(i + 1).drop_last() =~= p.take(i));
}

proof fn lemma_division(total: int, w: int, s: int)
    requires
        total >= 0,
        0 <= w <= s,
        s > 0,
    ensures
        0 <= base_de(total, w, s) <= total,
        0 <= resto_de(total, w, s) < s,
        s * base_de(total, w, s) + resto_de(total, w, s) == total * w,
{
    let b = base_de(total, w, s);
    let r = resto_de(total, w, s);
    vstd::arithmetic::div_mod::lemma_fundamental_div_mod(total * w, s);
    assert(total * w >= 0) by (nonlinear_arith)
        requires
            total >= 0,
            w >= 0,
    ;
    assert(total * w <= total * s) by (nonlinear_arith)
        requires
            total >= 0,
            w <= s,
    ;
    assert(0 <= b <= total) by (nonlinear_arith)
        requires
            s * b + r == total * w,
            0 <= r < s,
            0 <= total * w <= total * s,
            s > 0,
    ;
}

/// Each weight is at most the weight sum; each floor share is non-negative and
/// at most the sum of floor shares; the scaled remainders add up to
/// `total * suma_pesos(q) - s * suma_bases(q)`, which lies in `[0, len * (s - 1)]`.
proof fn lemma_sumas(total: int, q: Seq<(i64, i64)>, s: int)
    requires
        total >= 0,
        s > 0,
        forall|i: int| 0 <= i < q.len() ==> q[i].1 >= 0,
        suma_pesos(q) <= s,
    ensures
        suma_pesos(q) >= 0,
        forall|i: int| 0 <= i < q.len() ==> q[i].1 <= suma_pesos(q),
        forall|i: int|
            0 <= i < q.len() ==> 0 <= #[trigger] base_de(total, q[i].1 as int, s) <= suma_bases(total, q, s),
        0 <= total * suma_pesos(q) - s * suma_bases(total, q, s) <= q.len() * (s - 1),
    decreases q.len(),
{
    if q.len() > 0 {
        let r = q.drop_last();
        let w = q.last().1 as int;
        assert forall|i: int| 0 <= i < r.len() implies r[i].1 >= 0 by {
            assert(r[i] == q[i]);
        }
        lemma_sumas(total, r, s);
        lemma_division(total, w, s);
        assert forall|i: int| 0 <= i < q.len() implies q[i].1 <= suma_pesos(q) by {
            if i < r.len() {
                assert(r[i] == q[i]);
            }
        }
        assert forall|i: int| 0 <= i < q.len() implies 0 <= #[trigger] base_de(total, q[i].1 as int, s)
            <= suma_bases(total, q, s) by {
            if i < r.len() {
                assert(r[i] == q[i]);
            }
        }
        let sp = suma_pesos(r);
        let sb = suma_bases(total, r, s);
        let b = base_de(total, w, s);
        let rr = resto_de(total, w, s);
        let n = r.len() as int;
        assert(total * (sp + w) - s * (sb + b) == (total * sp - s * sb) + (total * w - s * b))
            by (nonlinear_arith);
        assert((n + 1) * (s - 1) == n * (s - 1) + (s - 1)) by (nonlinear_arith);
    }
}

/// Splits `total_pack` among the buckets of `pesos` in proportion to their
/// weights by the largest-remainder method. The result lists the buckets in
/// input order with their amounts.
pub fn repartir_total_proporcional(total_pack: i64, pesos: &Vec<(i64, i64)>) -> (r: Result<
    Vec<(i64, i64)>,
    LedgerError,
>)
    ensures
        r.is_ok() <==> pesos_validos(total_pack as int, pesos@),
        r.is_err() ==> r == Err::<Vec<(i64, i64)>, LedgerError>(LedgerError::InvalidInput),
        r matches Ok(out) ==> es_reparto(total_pack as int, pesos@, out@),
        r matches Ok(out) ==> suma_montos(out@) == total_pack,
        r matches Ok(out) ==> out@ == reparto_de(total_pack as int, pesos@),
{
    let ghost p = pesos@;
    let ghost total = total_pack as int;
    if total_pack < 0 {
        return Err(LedgerError::InvalidInput);
    }
    let n = pesos.len();
    let mut suma: i128 = 0;
    let mut i: usize = 0;
    while i < n
        invariant
            i <= n,
            n == p.len(),
            p == pesos@,
            suma == suma_pesos(p.take(i as int)),
            0 <= suma <= i * 0x7fff_ffff_ffff_ffff,
            forall|t: int| 0 <= t < i ==> p[t].1 >= 0,
        decreases n - i,
    {
        let w = pesos[i].1;
        if w < 0 {
            return Err(LedgerError::InvalidInput);
        }
        proof {
            lemma_prefijo(p, total, 1, i as int);
        }
        suma = suma + w as i128;
        i = i + 1;
    }
    assert(p.take(n as int) =~= p);
    if suma <= 0 {
        return Err(LedgerError::InvalidInput);
    }
    let ghost s = suma as int;
    proof {
        lemma_sumas(total, p, s);
    }
    let mut bases: Vec<i64> = Vec::new();
    let mut restos: Vec<i128> = Vec::new();
    let mut suma_b: i128 = 0;
    let mut i: usize = 0;
    while i < n
        invariant
            i <= n,
            n == p.len(),
            p == pesos@,
            total == total_pack,
            total >= 0,
            s == suma,
            s == suma_pesos(p),
            s > 0,
            forall|t: int| 0 <= t < n ==> 0 <= #[trigger] p[t].1 <= s,
            bases.len() == i,
            restos.len() == i,
            forall|t: int| 0 <= t < i ==> #[trigger] bases@[t] == base_de(total, p[t].1 as int, s),
            forall|t: int| 0 <= t < i ==> #[trigger] restos@[t] == resto_de(total, p[t].1 as int, s),
            suma_b == suma_bases(total, p.take(i as int), s),
            0 <= suma_b <= i * 0x7fff_ffff_ffff_ffff,
        decreases n - i,
    {
        let w = pesos[i].1;
        proof {
            lemma_division(total, w as int, s);
            lemma_prefijo(p, total, s, i as int);
            assert(0 <= total * w <= 0x7fff_ffff_ffff_ffff * 0x7fff_ffff_ffff_ffff)
                by (nonlinear_arith)
                requires
                    0 <= total <= 0x7fff_ffff_ffff_ffff,
                    0 <= w <= 0x7fff_ffff_ffff_ffff,
            ;
        }
        let numer: i128 = (total_pack as i128) * (w as i128);
        let b: i128 = numer / suma;
        let rr: i128 = numer % suma;
        bases.push(b as i64);
        restos.push(rr);
        suma_b = suma_b + b;
        i = i + 1;
    }
    assert(p.take(n as int) =~= p);
    proof {
        if n == 0 {
            assert(p =~= Seq::<(i64, i64)>::empty());
        }
        assert(n >= 1);
        let d = total * s - s * suma_b;
        assert(total * s - s * suma_b == s * (total - suma_b)) by (nonlinear_arith);
        assert(0 <= total - suma_b < n) by (nonlinear_arith)
            requires
                d == s * (total - suma_b),
                0 <= d <= n * (s - 1),
                s > 0,
                n >= 1,
        ;
    }
    let faltan: usize = (total_pack as i128 - suma_b) as usize;
    let extra = elegir_extras(&restos, faltan);
    let mut out: Vec<(i64, i64)> = Vec::new();
    let mut i: usize = 0;
    while i < n
        invariant
            i <= n,
            n == p.len(),
            p == pesos@,
            total == total_pack,
            total >= 0,
            s == suma_pesos(p),
            s > 0,
            bases.len() == n,
            restos.len() == n,
            extra.len() == n,
            forall|t: int| 0 <= t < n ==> #[trigger] bases@[t] == base_de(total, p[t].1 as int, s),
            forall|t: int|
                0 <= t < n ==> 0 <= #[trigger] base_de(total, p[t].1 as int, s) <= suma_bases(total, p, s),
            suma_bases(total, p, s) + faltan == total,
            num_true(extra@) == faltan,
            out.len() == i,
            forall|t: int| 0 <= t < i ==> #[trigger] out@[t].0 == p[t].0,
            forall|t: int|
                0 <= t < i ==> #[trigger] out@[t].1 == bases@[t] + if extra@[t] {
                    1int
                } else {
                    0int
                },
            suma_montos(out@) == suma_bases(total, p.take(i as int), s) + num_true(
                extra@.take(i as int),
            ),
        decreases n - i,
    {
        proof {
            lemma_prefijo(p, total, s, i as int);
            assert(extra@.take(i + 1).drop_last() =~= extra@.take(i as int));
            if extra@[i as int] {
                lemma_num_true_pos(extra@, i as int);
            }
        }
        let monto: i64 = if extra[i] {
            bases[i] + 1
        } else {
            bases[i]
        };
        let ghost viejo = out@;
        out.push((pesos[i].0, monto));
        assert(out@.drop_last() =~= viejo);
        i = i + 1;
    }
    assert(p.take(n as int) =~= p);
    assert(extra@.take(n as int) =~= extra@);
    assert forall|a: int, b: int|
        0 <= a < n && 0 <= b < n && #[trigger] recibe_extra(total, p, out@, a)
            && !#[trigger] recibe_extra(total, p, out@, b) implies precede(total, p, a, b) by {
        assert(extra@[a] && !extra@[b]);
    }
    proof {
        let o = reparto_de(total, p);
        assert(es_reparto(total, p, out@));
        lemma_reparto_unico(total, p, out@, o);
    }
    Ok(out)
}

proof fn lemma_montos_acotados(out: Seq<(i64, i64)>, k: int)
    requires
        0 <= k < out.len(),
        forall|i: int| 0 <= i < out.len() ==> #[trigger] out[i].1 >= 0,
    ensures
        out[k].1 <= suma_montos(out),
        suma_montos(out) >= 0,
    decreases out.len(),
{
    let r = out.drop_last();
    assert forall|i: int| 0 <= i < r.len() implies #[trigger] r[i].1 >= 0 by {
        assert(r[i] == out[i]);
    }
    if r.len() > 0 {
        lemma_montos_acotados(r, 0);
    } else {
        assert(suma_montos(r) == 0);
    }
    assert(out[out.len() - 1].1 >= 0);
    assert(suma_montos(out) == suma_montos(r) + out[out.len() - 1].1);
    if k < out.len() - 1 {
        lemma_montos_acotados(r, k);
        assert(r[k] == out[k]);
    }
}

/// Every amount of a largest-remainder allocation lies between 0 and the total.
pub proof fn lemma_reparto_acotado(total: int, p: Seq<(i64, i64)>, out: Seq<(i64, i64)>)
    requires
        pesos_validos(total, p),
        es_reparto(total, p, out),
    ensures
        forall|i: int| 0 <= i < out.len() ==> 0 <= #[trigger] out[i].1 <= total,
{
    let s = suma_pesos(p);
    lemma_sumas(total, p, s);
    assert forall|i: int| 0 <= i < out.len() implies #[trigger] out[i].1 >= 0 by {
        lemma_division(total, p[i].1 as int, s);
        assert(out[i].1 == base_de(total, p[i].1 as int, s) || out[i].1 == base_de(
            total,
            p[i].1 as int,
            s,
        ) + 1);
    }
    assert forall|i: int| 0 <= i < out.len() implies 0 <= #[trigger] out[i].1 <= total by {
        lemma_montos_acotados(out, i);
    }
}

proof fn lemma_suma_mayor(a: Seq<(i64, i64)>, b: Seq<(i64, i64)>, i: int)
    requires
        a.len() == b.len(),
        0 <= i < a.len(),
        forall|k: int| 0 <= k < a.len() ==> #[trigger] a[k].1 >= b[k].1,
        a[i].1 > b[i].1,
    ensures
        suma_montos(a) > suma_montos(b),
    decreases a.len(),
{
    let ra = a.drop_last();
    let rb = b.drop_last();
    assert forall|k: int| 0 <= k < ra.len() implies #[trigger] ra[k].1 >= rb[k].1 by {
        assert(ra[k] == a[k] && rb[k] == b[k]);
    }
    if i == a.len() - 1 {
        lemma_suma_mayor_igual(ra, rb);
    } else {
        assert(ra[i] == a[i] && rb[i] == b[i]);
        lemma_suma_mayor(ra, rb, i);
        assert(a[a.len() - 1].1 >= b[b.len() - 1].1);
    }
}

proof fn lemma_suma_mayor_igual(a: Seq<(i64, i64)>, b: Seq<(i64, i64)>)
    requires
        a.len() == b.len(),
        forall|k: int| 0 <= k < a.len() ==> #[trigger] a[k].1 >= b[k].1,
    ensures
        suma_montos(a) >= suma_montos(b),
    decreases a.len(),
{
    if a.len() > 0 {
        let ra = a.drop_last();
        let rb = b.drop_last();
        assert forall|k: int| 0 <= k < ra.len() implies #[trigger] ra[k].1 >= rb[k].1 by {
            assert(ra[k] == a[k] && rb[k] == b[k]);
        }
        lemma_suma_mayor_igual(ra, rb);
        assert(a[a.len() - 1].1 >= b[b.len() - 1].1);
    }
}

/// The largest-remainder allocation of a total over given buckets is unique.
pub proof fn lemma_reparto_unico(total: int, p: Seq<(i64, i64)>, a: Seq<(i64, i64)>, b: Seq<(i64, i64)>)
    requires
        es_reparto(total, p, a),
        es_reparto(total, p, b),
    ensures
        a == b,
{
    let s = suma_pesos(p);
    if exists|i: int| 0 <= i < p.len() && recibe_extra(total, p, a, i) && !recibe_extra(total, p, b, i) {
        let i = choose|i: int| 0 <= i < p.len() && recibe_extra(total, p, a, i) && !recibe_extra(total, p, b, i);
        if exists|j: int| 0 <= j < p.len() && recibe_extra(total, p, b, j) && !recibe_extra(total, p, a, j) {
            let j = choose|j: int| 0 <= j < p.len() && recibe_extra(total, p, b, j) && !recibe_extra(total, p, a, j);
            assert(precede(total, p, i, j));
            assert(precede(total, p, j, i));
        } else {
            assert forall|k: int| 0 <= k < a.len() implies #[trigger] a[k].1 >= b[k].1 by {
                assert(!(recibe_extra(total, p, b, k) && !recibe_extra(total, p, a, k)));
                assert(a[k].1 == base_de(total, p[k].1 as int, s) || a[k].1 == base_de(total, p[k].1 as int, s) + 1);
                assert(b[k].1 == base_de(total, p[k].1 as int, s) || b[k].1 == base_de(total, p[k].1 as int, s) + 1);
            }
            assert(a[i].1 == base_de(total, p[i].1 as int, s) || a[i].1 == base_de(total, p[i].1 as int, s) + 1);
            assert(b[i].1 == base_de(total, p[i].1 as int, s) || b[i].1 == base_de(total, p[i].1 as int, s) + 1);
            lemma_suma_mayor(a, b, i);
        }
    } else if exists|j: int| 0 <= j < p.len() && recibe_extra(total, p, b, j) && !recibe_extra(total, p, a, j) {
        let j = choose|j: int| 0 <= j < p.len() && recibe_extra(total, p, b, j) && !recibe_extra(total, p, a, j);
        assert forall|k: int| 0 <= k < b.len() implies #[trigger] b[k].1 >= a[k].1 by {
            assert(!(recibe_extra(total, p, a, k) && !recibe_extra(total, p, b, k)));
            assert(a[k].1 == base_de(total, p[k].1 as int, s) || a[k].1 == base_de(total, p[k].1 as int, s) + 1);
            assert(b[k].1 == base_de(total, p[k].1 as int, s) || b[k].1 == base_de(total, p[k].1 as int, s) + 1);
        }
        assert(a[j].1 == base_de(total, p[j].1 as int, s) || a[j].1 == base_de(total, p[j].1 as int, s) + 1);
        assert(b[j].1 == base_de(total, p[j].1 as int, s) || b[j].1 == base_de(total, p[j].1 as int, s) + 1);
        lemma_suma_mayor(b, a, j);
    } else {
        assert forall|k: int| 0 <= k < a.len() implies a[k] == b[k] by {
            assert(a[k].0 == p[k].0 && b[k].0 == p[k].0);
            assert(a[k].1 == base_de(total, p[k].1 as int, s) || a[k].1 == base_de(total, p[k].1 as int, s) + 1);
            assert(b[k].1 == base_de(total, p[k].1 as int, s) || b[k].1 == base_de(total, p[k].1 as int, s) + 1);
            assert(recibe_extra(total, p, a, k) == recibe_extra(total, p, b, k));
        }
        assert(a =~= b);
    }
}

/// The largest-remainder allocation of `total` over the buckets `p`, when
/// the input is valid.
pub open spec fn reparto_de(total: int, p: Seq<(i64, i64)>) -> Seq<(i64, i64)> {
    choose|o: Seq<(i64, i64)>| es_reparto(total, p, o)
}

/// Splits `total` into `qty` unit prices: `(base, resto)` where `resto` units
/// cost `base + 1` and the other `qty - resto` cost `base`.
pub fn dividir_total_en_unitarios(total: i64, qty: i64) -> (r: Result<(i64, i64), LedgerError>)
    ensures
        r.is_ok() <==> (qty > 0 && total >= 0),
        r.is_err() ==> r == Err::<(i64, i64), LedgerError>(LedgerError::InvalidInput),
        r matches Ok((base, resto)) ==> {
            &&& base == total / qty
            &&& resto == total % qty
            &&& 0 <= resto < qty
            &&& resto * (base + 1) + (qty - resto) * base == total
        },
{
    if qty <= 0 {
        return Err(LedgerError::InvalidInput);
    }
    if total < 0 {
        return Err(LedgerError::InvalidInput);
    }
    let base = total / qty;
    let resto = total % qty;
    proof {
        lemma_reparto_unitario(total as int, qty as int);
    }
    Ok((base, resto))
}

/// For a non-negative bucket total and a positive quantity, `resto` units at
/// `base + 1` and the rest at `base` add up to the bucket total exactly.
pub proof fn lemma_reparto_unitario(total: int, qty: int)
    requires
        total >= 0,
        qty > 0,
    ensures
        (total % qty) * (total / qty + 1) + (qty - total % qty) * (total / qty) == total,
        0 <= total % qty < qty,
{
    let b = total / qty;
    let r = total % qty;
    vstd::arithmetic::div_mod::lemma_fundamental_div_mod(total, qty);
    assert(r * (b + 1) + (qty - r) * b == qty * b + r) by (nonlinear_arith);
}

} // verus!
