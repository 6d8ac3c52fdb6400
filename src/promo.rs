//! Applying a promotion bundle to a sale in progress: the bundle price is
//! split among its products by weight, each product's share is split into at
//! most two unit prices, and the units are taken from the cart's regular lines.

use vstd::prelude::*;
use crate::error::{EstadoVenta, LedgerError};
use crate::reparto::{
    es_reparto, pesos_validos, repartir_total_proporcional, dividir_total_en_unitarios,
    reparto_de,
};
use crate::venta::{
    cabe, lineas_ok, linea_ok, suma_subtotales, ultima, FuentePrecio, LineaVenta,
    Venta, VentaModelo, lemma_lineas_update, lemma_lineas_remove, lemma_lineas_push,
};

verus! {

/// A promotion bundle.
#[derive(Debug, Clone)]
pub struct PromoComboRow {
    pub id_combo: i64,
    pub nombre: String,
    pub precio_pack: i64,
    pub precio_min_total: i64,
    pub activo: i64,
    pub creado_en: String,
}

/// One product of a bundle, with the quantity the bundle needs and the
/// product's current catalog price.
#[derive(Debug, Clone)]
pub struct PromoComboItemRow {
    pub id_producto: i64,
    pub nombre: String,
    pub cantidad: i64,
    pub precio_unitario: i64,
    pub subtotal_sugerido: i64,
}

/// The weight of each bundle product: catalog price times required quantity.
pub open spec fn pesos_combo(items: Seq<PromoComboItemRow>) -> Seq<(i64, i64)> {
    items.map_values(
        |it: PromoComboItemRow| (it.id_producto, (it.precio_unitario * it.cantidad) as i64),
    )
}

/// Every bundle product needs a positive quantity and has a weight in range.
pub open spec fn items_combo_ok(items: Seq<PromoComboItemRow>) -> bool {
    forall|i: int|
        0 <= i < items.len() ==> #[trigger] items[i].cantidad > 0 && cabe(
            items[i].precio_unitario * items[i].cantidad,
        )
}

/// A regular (not promotional) line of product `idp` holding at least `qty` units.
pub open spec fn consumible(idp: i64, qty: i64) -> spec_fn(LineaVenta) -> bool {
    |l: LineaVenta| l.fuente_precio != FuentePrecio::Promo && l.id_producto == idp && l.cantidad >= qty
}

/// A promotional line.
pub open spec fn linea_promo(
    id: int,
    idp: i64,
    cant: int,
    precio: int,
    costo: i64,
    lista: i64,
    id_combo: i64,
    pack: i64,
    grupo: String,
) -> LineaVenta {
    LineaVenta {
        id_item: id as i64,
        id_producto: idp,
        cantidad: cant as i64,
        precio_unitario: precio as i64,
        precio_lista: lista,
        costo_unitario_en_venta: costo,
        fuente_precio: FuentePrecio::Promo,
        promo_combo_id: Some(id_combo),
        promo_grupo_id: Some(grupo),
        promo_precio_total: Some(pack),
        subtotal: (cant * precio) as i64,
    }
}

/// Replaces `qty` units of product `idp` from the last regular line that holds
/// enough of them by promotional lines whose subtotals add up to `monto`:
/// `qty - resto` units at `base` and `resto` units at `base + 1`. The regular
/// line shrinks, or goes when it had exactly `qty` units. `None` when no
/// regular line holds enough units.
pub open spec fn paso_promo(
    s: Seq<LineaVenta>,
    sig: int,
    idp: i64,
    qty: i64,
    monto: int,
    id_combo: i64,
    pack: i64,
    grupo: String,
) -> Option<(Seq<LineaVenta>, int)> {
    let k = ultima(s, consumible(idp, qty));
    if k < 0 {
        None
    } else {
        let l = s[k];
        let base = monto / qty as int;
        let resto = monto % qty as int;
        let s1 = if l.cantidad > qty {
            s.update(
                k,
                LineaVenta {
                    cantidad: (l.cantidad - qty) as i64,
                    subtotal: ((l.cantidad - qty) * l.precio_unitario) as i64,
                    ..l
                },
            )
        } else {
            s.remove(k)
        };
        let n_base = qty - resto;
        let s2 = if n_base > 0 {
            s1.push(linea_promo(sig, idp, n_base, base, l.costo_unitario_en_venta, l.precio_unitario, id_combo, pack, grupo))
        } else {
            s1
        };
        let sig2 = if n_base > 0 {
            sig + 1
        } else {
            sig
        };
        let s3 = if resto > 0 {
            s2.push(
                linea_promo(sig2, idp, resto, base + 1, l.costo_unitario_en_venta, l.precio_unitario, id_combo, pack, grupo),
            )
        } else {
            s2
        };
        let sig3 = if resto > 0 {
            sig2 + 1
        } else {
            sig2
        };
        Some((s3, sig3))
    }
}

/// The cart after the first `k` bundle products took their units, each with
/// the amount that `asig` gives it.
pub open spec fn plegar_promo(
    s0: Seq<LineaVenta>,
    sig0: int,
    items: Seq<PromoComboItemRow>,
    asig: Seq<(i64, i64)>,
    id_combo: i64,
    pack: i64,
    grupo: String,
    k: nat,
) -> Result<(Seq<LineaVenta>, int), LedgerError>
    decreases k,
{
    if k == 0 {
        Ok((s0, sig0))
    } else {
        match plegar_promo(s0, sig0, items, asig, id_combo, pack, grupo, (k - 1) as nat) {
            Err(e) => Err(e),
            Ok(prev) => {
                let it = items[k - 1];
                match paso_promo(
                    prev.0,
                    prev.1,
                    it.id_producto,
                    it.cantidad,
                    asig[k - 1].1 as int,
                    id_combo,
                    pack,
                    grupo,
                ) {
                    None => Err(
                        LedgerError::InsufficientQuantity {
                            id_producto: it.id_producto,
                            requerida: it.cantidad,
                        },
                    ),
                    Some(x) => Ok(x),
                }
            },
        }
    }
}

/// Why the bundle cannot be applied at all, if it cannot: the sale is not in
/// progress; or the pack price is negative or below the bundle's minimum, the
/// bundle is inactive or empty, a product needs no units or has a weight out
/// of range, the weights do not sum to a positive amount, or line identifiers
/// would run out.
pub open spec fn error_promo_previo(
    m: VentaModelo,
    combo: PromoComboRow,
    items: Seq<PromoComboItemRow>,
    pack: i64,
) -> Option<LedgerError> {
    if m.estado != EstadoVenta::EnCurso {
        Some(LedgerError::InvalidStateTransition { estado: m.estado })
    } else if pack < 0 || combo.activo != 1 || pack < combo.precio_min_total || items.len() == 0
        || !items_combo_ok(items) || !pesos_validos(pack as int, pesos_combo(items))
        || m.siguiente_id_item + 2 * items.len() > i64::MAX {
        Some(LedgerError::InvalidInput)
    } else {
        None
    }
}

/// Outcome of applying the bundle with the per-product amounts `asig`: every
/// product takes its units in bundle order, and the total follows.
pub open spec fn resultado_promo(
    m: VentaModelo,
    combo: PromoComboRow,
    items: Seq<PromoComboItemRow>,
    asig: Seq<(i64, i64)>,
    pack: i64,
    grupo: String,
) -> Result<VentaModelo, LedgerError> {
    match plegar_promo(
        m.items,
        m.siguiente_id_item as int,
        items,
        asig,
        combo.id_combo,
        pack,
        grupo,
        items.len(),
    ) {
        Err(e) => Err(e),
        Ok(fin) => if cabe(suma_subtotales(fin.0)) {
            Ok(
                VentaModelo {
                    items: fin.0,
                    total: suma_subtotales(fin.0) as i64,
                    siguiente_id_item: fin.1 as i64,
                    ..m
                },
            )
        } else {
            Err(LedgerError::InvalidInput)
        },
    }
}

proof fn lemma_plegar_err(
    s0: Seq<LineaVenta>,
    sig0: int,
    items: Seq<PromoComboItemRow>,
    asig: Seq<(i64, i64)>,
    id_combo: i64,
    pack: i64,
    grupo: String,
    k: nat,
    j: nat,
)
    requires
        k <= j,
        plegar_promo(s0, sig0, items, asig, id_combo, pack, grupo, k) is Err,
    ensures
        plegar_promo(s0, sig0, items, asig, id_combo, pack, grupo, j) == plegar_promo(
            s0,
            sig0,
            items,
            asig,
            id_combo,
            pack,
            grupo,
            k,
        ),
    decreases j - k,
{
    if k < j {
        lemma_plegar_err(s0, sig0, items, asig, id_combo, pack, grupo, k, (j - 1) as nat);
    }
}

fn buscar_consumible(items: &Vec<LineaVenta>, idp: i64, qty: i64) -> (r: Option<usize>)
    ensures
        match r {
            Some(k) => k < items.len() && k as int == ultima(items@, consumible(idp, qty)),
            None => ultima(items@, consumible(idp, qty)) == -1,
        },
{
    let mut j = items.len();
    while j > 0
        invariant
            j <= items.len(),
            forall|t: int| j <= t < items.len() ==> !consumible(idp, qty)(#[trigger] items@[t]),
        decreases j,
    {
        let l = &items[j - 1];
        if l.fuente_precio != FuentePrecio::Promo && l.id_producto == idp && l.cantidad >= qty {
            proof {
                crate::venta::lemma_ultima(items@, consumible(idp, qty), j - 1);
            }
            return Some(j - 1);
        }
        j = j - 1;
    }
    proof {
        crate::venta::lemma_ultima(items@, consumible(idp, qty), -1);
    }
    None
}

proof fn lemma_tramos(monto: int, qty: int, base: int, resto: int)
    requires
        monto >= 0,
        qty > 0,
        base == monto / qty,
        resto == monto % qty,
    ensures
        0 <= resto < qty,
        base >= 0,
        0 <= (qty - resto) * base <= monto,
        resto > 0 ==> base + 1 <= monto,
        resto > 0 ==> 0 <= resto * (base + 1) <= monto,
{
    vstd::arithmetic::div_mod::lemma_fundamental_div_mod(monto, qty);
    assert(0 <= resto < qty && base >= 0) by (nonlinear_arith)
        requires
            monto == qty * base + resto,
            resto == monto % qty,
            qty > 0,
            monto >= 0,
    {
        vstd::arithmetic::div_mod::lemma_mod_bound(monto, qty);
    }
    assert(0 <= (qty - resto) * base <= monto) by (nonlinear_arith)
        requires
            monto == qty * base + resto,
            0 <= resto < qty,
            base >= 0,
    ;
    if resto > 0 {
        assert(base + 1 <= monto && 0 <= resto * (base + 1) <= monto) by (nonlinear_arith)
            requires
                monto == qty * base + resto,
                0 < resto < qty,
                base >= 0,
        ;
    }
}

proof fn lemma_menos_unidades(c: int, qty: int, p: int)
    requires
        0 < qty < c,
        0 <= p,
        c * p <= i64::MAX,
    ensures
        0 <= (c - qty) * p <= c * p,
{
    assert(0 <= (c - qty) * p <= c * p) by (nonlinear_arith)
        requires
            0 < qty < c,
            0 <= p,
    ;
}

/// One step of a bundle application on the cart `lineas`, whose next line
/// identifier is `sig`; see `paso_promo`.
fn paso_promo_exec(
    lineas: &mut Vec<LineaVenta>,
    sig: &mut i64,
    idp: i64,
    qty: i64,
    monto: i64,
    id_combo: i64,
    pack: i64,
    grupo: &String,
) -> (ok: bool)
    requires
        lineas_ok(old(lineas)@, *old(sig)),
        qty > 0,
        monto >= 0,
        *old(sig) + 2 <= i64::MAX,
    ensures
        match paso_promo(old(lineas)@, *old(sig) as int, idp, qty, monto as int, id_combo, pack, *grupo) {
            None => !ok && final(lineas)@ == old(lineas)@ && *final(sig) == *old(sig),
            Some(x) => ok && final(lineas)@ == x.0 && *final(sig) as int == x.1,
        },
        lineas_ok(final(lineas)@, *final(sig)),
        *old(sig) <= *final(sig) <= *old(sig) + 2,
{
    let k = match buscar_consumible(lineas, idp, qty) {
        None => return false,
        Some(k) => k,
    };
    let ghost s = lineas@;
    let c = lineas[k].cantidad;
    let p = lineas[k].precio_unitario;
    let costo = lineas[k].costo_unitario_en_venta;
    let (base, resto) = match dividir_total_en_unitarios(monto, qty) {
        Ok(x) => x,
        Err(_) => return false,
    };
    proof {
        assert(linea_ok(s[k as int]));
        lemma_tramos(monto as int, qty as int, base as int, resto as int);
    }
    if c > qty {
        proof {
            lemma_menos_unidades(c as int, qty as int, p as int);
        }
        let mut nl = lineas[k].copiar();
        nl.cantidad = c - qty;
        nl.subtotal = (c - qty) * p;
        proof {
            lemma_lineas_update(s, *sig, k as int, nl);
        }
        lineas.set(k, nl);
    } else {
        proof {
            lemma_lineas_remove(s, *sig, k as int);
        }
        lineas.remove(k);
    }
    let n_base = qty - resto;
    if n_base > 0 {
        let nl = LineaVenta {
            id_item: *sig,
            id_producto: idp,
            cantidad: n_base,
            precio_unitario: base,
            precio_lista: p,
            costo_unitario_en_venta: costo,
            fuente_precio: FuentePrecio::Promo,
            promo_combo_id: Some(id_combo),
            promo_grupo_id: Some(grupo.clone()),
            promo_precio_total: Some(pack),
            subtotal: n_base * base,
        };
        proof {
            lemma_lineas_push(lineas@, *sig, nl);
        }
        lineas.push(nl);
        *sig = *sig + 1;
    }
    if resto > 0 {
        let nl = LineaVenta {
            id_item: *sig,
            id_producto: idp,
            cantidad: resto,
            precio_unitario: base + 1,
            precio_lista: p,
            costo_unitario_en_venta: costo,
            fuente_precio: FuentePrecio::Promo,
            promo_combo_id: Some(id_combo),
            promo_grupo_id: Some(grupo.clone()),
            promo_precio_total: Some(pack),
            subtotal: resto * (base + 1),
        };
        proof {
            lemma_lineas_push(lineas@, *sig, nl);
        }
        lineas.push(nl);
        *sig = *sig + 1;
    }
    true
}

proof fn lemma_producto_acotado(a: int, b: int)
    requires
        i64::MIN <= a <= i64::MAX,
        i64::MIN <= b <= i64::MAX,
    ensures
        -0x4000_0000_0000_0000_0000_0000_0000_0000 <= a * b <= 0x4000_0000_0000_0000_0000_0000_0000_0000,
{
    assert(-0x4000_0000_0000_0000_0000_0000_0000_0000 <= a * b <= 0x4000_0000_0000_0000_0000_0000_0000_0000)
        by (nonlinear_arith)
        requires
            -0x8000_0000_0000_0000 <= a <= 0x7fff_ffff_ffff_ffff,
            -0x8000_0000_0000_0000 <= b <= 0x7fff_ffff_ffff_ffff,
    ;
}

/// Applies a bundle to a sale in progress at pack price `precio_total_pack`,
/// tagging the new lines with group `grupo`. The pack price is split among the
/// bundle products in proportion to catalog price times required quantity
/// (largest remainder, ties to the earlier product); each product's share is
/// split into at most two unit prices; the required units are taken from the
/// last regular line of the product that holds enough of them. Either every
/// product is applied and the total follows, or nothing changes.
pub fn aplicar_promo_combo(
    venta: &mut Venta,
    combo: &PromoComboRow,
    items: &Vec<PromoComboItemRow>,
    precio_total_pack: i64,
    grupo: String,
) -> (r: Result<(), LedgerError>)
    requires
        old(venta).wf(),
    ensures
        final(venta).wf(),
        error_promo_previo(old(venta)@, *combo, items@, precio_total_pack) matches Some(e) ==> r
            == Err::<(), LedgerError>(e) && final(venta)@ == old(venta)@,
        error_promo_previo(old(venta)@, *combo, items@, precio_total_pack) is None ==> match resultado_promo(
            old(venta)@,
            *combo,
            items@,
            reparto_de(precio_total_pack as int, pesos_combo(items@)),
            precio_total_pack,
            grupo,
        ) {
            Ok(m) => r is Ok && final(venta)@ == m,
            Err(e) => r == Err::<(), LedgerError>(e) && final(venta)@ == old(venta)@,
        },
{
    let ghost m = venta@;
    if venta.estado != EstadoVenta::EnCurso {
        return Err(LedgerError::InvalidStateTransition { estado: venta.estado });
    }
    let n = items.len();
    if precio_total_pack < 0 || combo.activo != 1 || precio_total_pack < combo.precio_min_total
        || n == 0 || venta.siguiente_id_item as i128 + 2 * (n as i128) > i64::MAX as i128 {
        return Err(LedgerError::InvalidInput);
    }
    let mut pesos: Vec<(i64, i64)> = Vec::new();
    let mut i: usize = 0;
    while i < n
        invariant
            n == items.len(),
            i <= n,
            pesos@ =~= pesos_combo(items@).take(i as int),
            m == venta@,
            venta.wf(),
            venta.estado == EstadoVenta::EnCurso,
            precio_total_pack >= 0,
            combo.activo == 1,
            precio_total_pack >= combo.precio_min_total,
            n > 0,
            m.siguiente_id_item + 2 * n <= i64::MAX,
            forall|t: int| 0 <= t < i ==> #[trigger] items@[t].cantidad > 0 && cabe(
                items@[t].precio_unitario * items@[t].cantidad,
            ),
        decreases n - i,
    {
        let it = &items[i];
        if it.cantidad <= 0 {
            assert(!items_combo_ok(items@)) by {
                assert(!(items@[i as int].cantidad > 0));
            }
            return Err(LedgerError::InvalidInput);
        }
        proof {
            lemma_producto_acotado(it.precio_unitario as int, it.cantidad as int);
        }
        let w: i128 = it.precio_unitario as i128 * it.cantidad as i128;
        if w > i64::MAX as i128 || w < i64::MIN as i128 {
            assert(!items_combo_ok(items@)) by {
                assert(!cabe(items@[i as int].precio_unitario * items@[i as int].cantidad));
            }
            return Err(LedgerError::InvalidInput);
        }
        pesos.push((it.id_producto, w as i64));
        i = i + 1;
    }
    assert(pesos@ =~= pesos_combo(items@));
    let asig = match repartir_total_proporcional(precio_total_pack, &pesos) {
        Ok(a) => a,
        Err(e) => return Err(LedgerError::InvalidInput),
    };
    proof {
        crate::reparto::lemma_reparto_acotado(precio_total_pack as int, pesos@, asig@);
    }
    let ghost grupo_v = grupo;
    let mut lineas: Vec<LineaVenta> = Vec::new();
    let mut t: usize = 0;
    while t < venta.items.len()
        invariant
            t <= venta.items.len(),
            lineas@ =~= venta.items@.take(t as int),
        decreases venta.items.len() - t,
    {
        lineas.push(venta.items[t].copiar());
        t = t + 1;
    }
    assert(lineas@ =~= m.items);
    let mut sig = venta.siguiente_id_item;
    let mut k: usize = 0;
    while k < n
        invariant
            n == items.len(),
            k <= n,
            m == venta@,
            venta.wf(),
            asig.len() == n,
            forall|a: int| 0 <= a < n ==> 0 <= #[trigger] asig@[a].1 <= precio_total_pack,
            forall|a: int| 0 <= a < n ==> #[trigger] items@[a].cantidad > 0,
            m.siguiente_id_item + 2 * n <= i64::MAX,
            m.siguiente_id_item <= sig <= m.siguiente_id_item + 2 * k,
            venta.estado == EstadoVenta::EnCurso,
            precio_total_pack >= 0,
            combo.activo == 1,
            precio_total_pack >= combo.precio_min_total,
            n > 0,
            items_combo_ok(items@),
            pesos_validos(precio_total_pack as int, pesos_combo(items@)),
            es_reparto(precio_total_pack as int, pesos_combo(items@), asig@),
            asig@ == reparto_de(precio_total_pack as int, pesos_combo(items@)),
            lineas_ok(lineas@, sig),
            grupo == grupo_v,
            plegar_promo(
                m.items,
                m.siguiente_id_item as int,
                items@,
                asig@,
                combo.id_combo,
                precio_total_pack,
                grupo,
                k as nat,
            ) == Ok::<(Seq<LineaVenta>, int), LedgerError>((lineas@, sig as int)),
        decreases n - k,
    {
        let it = &items[k];
        let ok = paso_promo_exec(
            &mut lineas,
            &mut sig,
            it.id_producto,
            it.cantidad,
            asig[k].1,
            combo.id_combo,
            precio_total_pack,
            &grupo,
        );
        if !ok {
            proof {
                lemma_plegar_err(
                    m.items,
                    m.siguiente_id_item as int,
                    items@,
                    asig@,
                    combo.id_combo,
                    precio_total_pack,
                    grupo,
                    (k + 1) as nat,
                    n as nat,
                );
            }
            return Err(
                LedgerError::InsufficientQuantity {
                    id_producto: it.id_producto,
                    requerida: it.cantidad,
                },
            );
        }
        k = k + 1;
    }
    let total = crate::venta::sumar_subtotales(&lineas);
    if total > i64::MAX as i128 {
        return Err(LedgerError::InvalidInput);
    }
    venta.items = lineas;
    venta.total = total as i64;
    venta.siguiente_id_item = sig;
    Ok(())
}

/// Relies on `uuid::Uuid::new_v4` and its `Display`: a fresh random
/// identifier that groups the lines of one bundle application. Nothing is
/// assumed of its value.
#[verifier::external_body]
fn nuevo_grupo_id() -> (r: String) {
    uuid::Uuid::new_v4().to_string()
}

/// Applies a bundle under a fresh group identifier, which is returned; see
/// `aplicar_promo_combo`.
pub fn venta_aplicar_promo_combo_db(
    venta: &mut Venta,
    combo: &PromoComboRow,
    items: &Vec<PromoComboItemRow>,
    precio_total_pack: i64,
) -> (r: Result<String, LedgerError>)
    requires
        old(venta).wf(),
    ensures
        final(venta).wf(),
        error_promo_previo(old(venta)@, *combo, items@, precio_total_pack) matches Some(e) ==> r
            == Err::<String, LedgerError>(e) && final(venta)@ == old(venta)@,
        error_promo_previo(old(venta)@, *combo, items@, precio_total_pack) is None ==> exists|
            grupo: String,
        |
            #![trigger resultado_promo(old(venta)@, *combo, items@, reparto_de(precio_total_pack as int, pesos_combo(items@)), precio_total_pack, grupo)]
            match resultado_promo(
                old(venta)@,
                *combo,
                items@,
                reparto_de(precio_total_pack as int, pesos_combo(items@)),
                precio_total_pack,
                grupo,
            ) {
                Ok(m) => r == Ok::<String, LedgerError>(grupo) && final(venta)@ == m,
                Err(e) => r == Err::<String, LedgerError>(e) && final(venta)@ == old(venta)@,
            },
{
    let grupo = nuevo_grupo_id();
    let ghost g = grupo;
    let res = aplicar_promo_combo(venta, combo, items, precio_total_pack, grupo.clone());
    match res {
        Ok(()) => Ok(grupo),
        Err(e) => Err(e),
    }
}

/// The pack price to apply: the one given when positive, else the bundle's own.
pub open spec fn precio_a_aplicar(precio_total_pack: i64, combo: PromoComboRow) -> i64 {
    if precio_total_pack > 0 {
        precio_total_pack
    } else {
        combo.precio_pack
    }
}

/// Applies a bundle at the given pack price, or at the bundle's own pack price
/// when none (0) is given. A negative price, or no positive price at all, is
/// refused with nothing changed.
pub fn venta_aplicar_promo_combo(
    venta: &mut Venta,
    combo: &PromoComboRow,
    items: &Vec<PromoComboItemRow>,
    precio_total_pack: i64,
) -> (r: Result<String, LedgerError>)
    requires
        old(venta).wf(),
    ensures
        final(venta).wf(),
        precio_total_pack < 0 || precio_a_aplicar(precio_total_pack, *combo) <= 0 ==> r == Err::<
            String,
            LedgerError,
        >(LedgerError::InvalidInput) && final(venta)@ == old(venta)@,
        precio_total_pack >= 0 && precio_a_aplicar(precio_total_pack, *combo) > 0 ==> {
            let pack = precio_a_aplicar(precio_total_pack, *combo);
            &&& error_promo_previo(old(venta)@, *combo, items@, pack) matches Some(e) ==> r == Err::<
                String,
                LedgerError,
            >(e) && final(venta)@ == old(venta)@
            &&& error_promo_previo(old(venta)@, *combo, items@, pack) is None ==> exists|
                grupo: String,
            |
                #![trigger resultado_promo(old(venta)@, *combo, items@, reparto_de(pack as int, pesos_combo(items@)), pack, grupo)]
                match resultado_promo(
                    old(venta)@,
                    *combo,
                    items@,
                    reparto_de(pack as int, pesos_combo(items@)),
                    pack,
                    grupo,
                ) {
                    Ok(m) => r == Ok::<String, LedgerError>(grupo) && final(venta)@ == m,
                    Err(e) => r == Err::<String, LedgerError>(e) && final(venta)@ == old(venta)@,
                }
        },
{
    if precio_total_pack < 0 {
        return Err(LedgerError::InvalidInput);
    }
    let pack = if precio_total_pack > 0 {
        precio_total_pack
    } else {
        combo.precio_pack
    };
    if pack <= 0 {
        return Err(LedgerError::InvalidInput);
    }
    venta_aplicar_promo_combo_db(venta, combo, items, pack)
}

} // verus!
