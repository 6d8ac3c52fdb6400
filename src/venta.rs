//! The sale ledger: a cart that is edited while in progress and becomes an
//! immutable, payment-reconciled record when it is finalized.

use vstd::prelude::*;
use crate::error::{EstadoVenta, LedgerError};

verus! {

/// Where the unit price of a line came from.
#[derive(Debug, Clone, Copy, PartialEq, Eq, Structural)]
pub enum FuentePrecio {
    Catalogo,
    Manual,
    Promo,
}

/// Payment medium.
#[derive(Debug, Clone, Copy, PartialEq, Eq, Structural)]
pub enum MedioPago {
    Efectivo,
    Debito,
    Credito,
    Transferencia,
}

/// One product line of a sale. Price and cost are snapshots taken when the
/// line was created or last repriced. `precio_unitario` is the price the line
/// is charged at; `precio_lista` is the catalog price of the units, which a
/// promotional line keeps beside its effective price, and
/// `promo_precio_total` is the pack price of the bundle application that made
/// a promotional line.
#[derive(Debug, Clone)]
pub struct LineaVenta {
    pub id_item: i64,
    pub id_producto: i64,
    pub cantidad: i64,
    pub precio_unitario: i64,
    pub precio_lista: i64,
    pub costo_unitario_en_venta: i64,
    pub fuente_precio: FuentePrecio,
    pub promo_combo_id: Option<i64>,
    pub promo_grupo_id: Option<String>,
    pub promo_precio_total: Option<i64>,
    pub subtotal: i64,
}

/// One payment of a sale.
#[derive(Debug, Clone)]
pub struct PagoInput {
    pub medio: MedioPago,
    pub monto: i64,
    pub referencia: Option<String>,
}

/// Who is operating and which register session is open, resolved once per request.
#[derive(Debug, Clone, Copy, PartialEq, Eq, Structural)]
pub struct SesionContexto {
    pub id_usuario: Option<i64>,
    pub id_caja_abierta: Option<i64>,
}

/// A stock decrement written when a sale is finalized.
#[derive(Debug, Clone, Copy, PartialEq, Eq, Structural)]
pub struct MovimientoStock {
    pub id_producto: i64,
    pub cantidad_delta: i64,
    pub costo_unitario: i64,
    pub total_costo: i64,
}

/// One line of an administrative re-edit of a finalized sale. The cost must
/// be resolved by the caller (from the catalog when the editor gave none).
#[derive(Debug, Clone, Copy, PartialEq, Eq, Structural)]
pub struct VentaEditarItemInput {
    pub id_producto: i64,
    pub cantidad: i64,
    pub precio_unitario: i64,
    pub costo_unitario_en_venta: Option<i64>,
    pub fuente_precio: FuentePrecio,
}

/// A sale with its lines and payments.
#[derive(Debug, Clone)]
pub struct Venta {
    pub id_venta: i64,
    pub id_usuario: i64,
    pub id_caja: i64,
    pub fecha_hora: String,
    pub estado: EstadoVenta,
    pub total: i64,
    pub items: Vec<LineaVenta>,
    pub pagos: Vec<PagoInput>,
    /// Identifier that the next new line receives.
    pub siguiente_id_item: i64,
}

/// Mathematical model of a sale.
pub struct VentaModelo {
    pub id_venta: i64,
    pub id_usuario: i64,
    pub id_caja: i64,
    pub fecha_hora: String,
    pub estado: EstadoVenta,
    pub total: i64,
    pub items: Seq<LineaVenta>,
    pub pagos: Seq<PagoInput>,
    pub siguiente_id_item: i64,
}

impl View for Venta {
    type V = VentaModelo;

    open spec fn view(&self) -> VentaModelo {
        VentaModelo {
            id_venta: self.id_venta,
            id_usuario: self.id_usuario,
            id_caja: self.id_caja,
            fecha_hora: self.fecha_hora,
            estado: self.estado,
            total: self.total,
            items: self.items@,
            pagos: self.pagos@,
            siguiente_id_item: self.siguiente_id_item,
        }
    }
}

/// `x` fits in the amount range.
pub open spec fn cabe(x: int) -> bool {
    i64::MIN <= x <= i64::MAX
}

/// A line is well formed: positive quantity, non-negative snapshots, and
/// `subtotal == cantidad * precio_unitario`.
pub open spec fn linea_ok(l: LineaVenta) -> bool {
    &&& l.cantidad > 0
    &&& l.precio_unitario >= 0
    &&& l.costo_unitario_en_venta >= 0
    &&& l.subtotal == l.cantidad * l.precio_unitario
}

/// Sum of the line subtotals.
pub open spec fn suma_subtotales(s: Seq<LineaVenta>) -> int
    decreases s.len(),
{
    if s.len() == 0 {
        0
    } else {
        suma_subtotales(s.drop_last()) + s.last().subtotal
    }
}

/// Sum of the payment amounts.
pub open spec fn suma_pagos(s: Seq<PagoInput>) -> int
    decreases s.len(),
{
    if s.len() == 0 {
        0
    } else {
        suma_pagos(s.drop_last()) + s.last().monto
    }
}

/// Index of the last line that satisfies `f`, or -1.
pub open spec fn ultima(s: Seq<LineaVenta>, f: spec_fn(LineaVenta) -> bool) -> int
    decreases s.len(),
{
    if s.len() == 0 {
        -1
    } else if f(s.last()) {
        s.len() - 1
    } else {
        ultima(s.drop_last(), f)
    }
}

/// Every line is well formed, line identifiers are distinct and all below `sig`.
pub open spec fn lineas_ok(s: Seq<LineaVenta>, sig: i64) -> bool {
    &&& forall|i: int| 0 <= i < s.len() ==> linea_ok(#[trigger] s[i])
    &&& forall|i: int| 0 <= i < s.len() ==> #[trigger] s[i].id_item < sig
    &&& forall|i: int, j: int|
        0 <= i < j < s.len() ==> #[trigger] s[i].id_item != #[trigger] s[j].id_item
}

/// The lines are consistent, the total is the sum of the subtotals, and a
/// voided sale has no lines.
pub open spec fn modelo_ok(m: VentaModelo) -> bool {
    &&& lineas_ok(m.items, m.siguiente_id_item)
    &&& m.total == suma_subtotales(m.items)
    &&& (m.estado == EstadoVenta::Anulada ==> m.items.len() == 0)
}

/// Replacing a line by a well-formed one with the same identifier keeps the
/// lines consistent.
pub proof fn lemma_lineas_update(s: Seq<LineaVenta>, sig: i64, k: int, l: LineaVenta)
    requires
        lineas_ok(s, sig),
        0 <= k < s.len(),
        linea_ok(l),
        l.id_item == s[k].id_item,
    ensures
        lineas_ok(s.update(k, l), sig),
{
    let u = s.update(k, l);
    assert forall|i: int, j: int| 0 <= i < j < u.len() implies #[trigger] u[i].id_item
        != #[trigger] u[j].id_item by {
        assert(u[i].id_item == s[i].id_item && u[j].id_item == s[j].id_item);
    }
}

/// Removing a line keeps the lines consistent.
pub proof fn lemma_lineas_remove(s: Seq<LineaVenta>, sig: i64, k: int)
    requires
        lineas_ok(s, sig),
        0 <= k < s.len(),
    ensures
        lineas_ok(s.remove(k), sig),
{
    let u = s.remove(k);
    assert forall|i: int| 0 <= i < u.len() implies linea_ok(#[trigger] u[i]) && u[i].id_item < sig by {
        let a = if i < k { i } else { i + 1 };
        assert(u[i] == s[a]);
    }
    assert forall|i: int, j: int| 0 <= i < j < u.len() implies #[trigger] u[i].id_item
        != #[trigger] u[j].id_item by {
        let a = if i < k { i } else { i + 1 };
        let b = if j < k { j } else { j + 1 };
        assert(u[i] == s[a] && u[j] == s[b]);
    }
}

/// Appending a well-formed line that takes the next identifier keeps the
/// lines consistent, with the next identifier one higher.
pub proof fn lemma_lineas_push(s: Seq<LineaVenta>, sig: i64, l: LineaVenta)
    requires
        lineas_ok(s, sig),
        linea_ok(l),
        l.id_item == sig,
        sig < i64::MAX,
    ensures
        lineas_ok(s.push(l), (sig + 1) as i64),
{
    let u = s.push(l);
    assert forall|i: int| 0 <= i < u.len() implies linea_ok(#[trigger] u[i]) && u[i].id_item < sig
        + 1 by {
        if i < s.len() {
            assert(u[i] == s[i]);
        }
    }
    assert forall|i: int, j: int| 0 <= i < j < u.len() implies #[trigger] u[i].id_item
        != #[trigger] u[j].id_item by {
        assert(u[i] == s[i]);
        if j < s.len() {
            assert(u[j] == s[j]);
        }
    }
}

impl Venta {
    /// The sale is consistent; see `modelo_ok`.
    pub open spec fn wf(&self) -> bool {
        modelo_ok(self@)
    }
}

/// `k` is the last index whose line satisfies `f` (-1 for none).
pub(crate) proof fn lemma_ultima(s: Seq<LineaVenta>, f: spec_fn(LineaVenta) -> bool, k: int)
    requires
        -1 <= k < s.len(),
        k >= 0 ==> f(s[k]),
        forall|t: int| k < t < s.len() ==> !f(#[trigger] s[t]),
    ensures
        ultima(s, f) == k,
    decreases s.len(),
{
    if s.len() > 0 && k < s.len() - 1 {
        assert(!f(s[s.len() - 1]));
        let r = s.drop_last();
        assert forall|t: int| k < t < r.len() implies !f(#[trigger] r[t]) by {
            assert(r[t] == s[t]);
        }
        lemma_ultima(r, f, k);
    }
}

proof fn lemma_suma_push(s: Seq<LineaVenta>, l: LineaVenta)
    ensures
        suma_subtotales(s.push(l)) == suma_subtotales(s) + l.subtotal,
{
    assert(s.push(l).drop_last() =~= s);
}

proof fn lemma_suma_update(s: Seq<LineaVenta>, k: int, l: LineaVenta)
    requires
        0 <= k < s.len(),
    ensures
        suma_subtotales(s.update(k, l)) == suma_subtotales(s) - s[k].subtotal + l.subtotal,
    decreases s.len(),
{
    let u = s.update(k, l);
    if k == s.len() - 1 {
        assert(u.drop_last() =~= s.drop_last());
    } else {
        assert(u.drop_last() =~= s.drop_last().update(k, l));
        lemma_suma_update(s.drop_last(), k, l);
    }
}

proof fn lemma_suma_remove(s: Seq<LineaVenta>, k: int)
    requires
        0 <= k < s.len(),
    ensures
        suma_subtotales(s.remove(k)) == suma_subtotales(s) - s[k].subtotal,
    decreases s.len(),
{
    let u = s.remove(k);
    if k == s.len() - 1 {
        assert(u =~= s.drop_last());
    } else {
        assert(u.drop_last() =~= s.drop_last().remove(k));
        lemma_suma_remove(s.drop_last(), k);
    }
}

/// A catalog-priced line of product `idp`.
pub open spec fn es_catalogo_de(idp: i64) -> spec_fn(LineaVenta) -> bool {
    |l: LineaVenta| l.fuente_precio == FuentePrecio::Catalogo && l.id_producto == idp
}

/// The line with identifier `id`.
pub open spec fn con_id(id: i64) -> spec_fn(LineaVenta) -> bool {
    |l: LineaVenta| l.id_item == id
}

/// Outcome of starting a sale for the operator and the open register of `ctx`.
pub open spec fn resultado_iniciar(ctx: SesionContexto, id_venta: i64, fecha_hora: String) -> Result<
    VentaModelo,
    LedgerError,
> {
    match (ctx.id_usuario, ctx.id_caja_abierta) {
        (None, _) => Err(LedgerError::NoSession),
        (Some(_), None) => Err(LedgerError::RegisterClosed),
        (Some(u), Some(c)) => Ok(
            VentaModelo {
                id_venta,
                id_usuario: u,
                id_caja: c,
                fecha_hora,
                estado: EstadoVenta::EnCurso,
                total: 0,
                items: Seq::empty(),
                pagos: Seq::empty(),
                siguiente_id_item: 1,
            },
        ),
    }
}

/// Outcome of adding `cant` units of product `idp`: merged into the catalog
/// line of that product (its price is kept), or a new line with the given
/// price and cost snapshot.
pub open spec fn resultado_agregar(
    m: VentaModelo,
    idp: i64,
    cant: i64,
    precio: i64,
    costo: i64,
) -> Result<VentaModelo, LedgerError> {
    if m.estado != EstadoVenta::EnCurso {
        Err(LedgerError::InvalidStateTransition { estado: m.estado })
    } else if cant <= 0 {
        Err(LedgerError::InvalidInput)
    } else {
        let k = ultima(m.items, es_catalogo_de(idp));
        if k >= 0 {
            let l = m.items[k];
            let q = l.cantidad + cant;
            let sub = q * l.precio_unitario;
            let nt = m.total - l.subtotal + sub;
            if !cabe(q) || !cabe(sub) || !cabe(nt) {
                Err(LedgerError::InvalidInput)
            } else {
                Ok(
                    VentaModelo {
                        total: nt as i64,
                        items: m.items.update(
                            k,
                            LineaVenta { cantidad: q as i64, subtotal: sub as i64, ..l },
                        ),
                        ..m
                    },
                )
            }
        } else {
            let sub = cant * precio;
            let nt = m.total + sub;
            if precio < 0 || costo < 0 || !cabe(sub) || !cabe(nt) || m.siguiente_id_item
                == i64::MAX {
                Err(LedgerError::InvalidInput)
            } else {
                Ok(
                    VentaModelo {
                        total: nt as i64,
                        items: m.items.push(
                            LineaVenta {
                                id_item: m.siguiente_id_item,
                                id_producto: idp,
                                cantidad: cant,
                                precio_unitario: precio,
                                precio_lista: precio,
                                costo_unitario_en_venta: costo,
                                fuente_precio: FuentePrecio::Catalogo,
                                promo_combo_id: None,
                                promo_grupo_id: None,
                                promo_precio_total: None,
                                subtotal: sub as i64,
                            },
                        ),
                        siguiente_id_item: (m.siguiente_id_item + 1) as i64,
                        ..m
                    },
                )
            }
        }
    }
}

/// Outcome of setting the quantity of line `id_item` to `cant`.
pub open spec fn resultado_set_cantidad(m: VentaModelo, id_item: i64, cant: i64) -> Result<
    VentaModelo,
    LedgerError,
> {
    if m.estado != EstadoVenta::EnCurso {
        Err(LedgerError::InvalidStateTransition { estado: m.estado })
    } else if cant <= 0 {
        Err(LedgerError::InvalidInput)
    } else {
        let k = ultima(m.items, con_id(id_item));
        if k < 0 {
            Err(LedgerError::NotFound { id: id_item })
        } else {
            let l = m.items[k];
            let sub = cant * l.precio_unitario;
            let nt = m.total - l.subtotal + sub;
            if !cabe(sub) || !cabe(nt) {
                Err(LedgerError::InvalidInput)
            } else {
                Ok(
                    VentaModelo {
                        total: nt as i64,
                        items: m.items.update(
                            k,
                            LineaVenta { cantidad: cant, subtotal: sub as i64, ..l },
                        ),
                        ..m
                    },
                )
            }
        }
    }
}

/// Outcome of removing line `id_item`.
pub open spec fn resultado_quitar(m: VentaModelo, id_item: i64) -> Result<VentaModelo, LedgerError> {
    if m.estado != EstadoVenta::EnCurso {
        Err(LedgerError::InvalidStateTransition { estado: m.estado })
    } else {
        let k = ultima(m.items, con_id(id_item));
        if k < 0 {
            Err(LedgerError::NotFound { id: id_item })
        } else {
            Ok(
                VentaModelo {
                    total: (m.total - m.items[k].subtotal) as i64,
                    items: m.items.remove(k),
                    ..m
                },
            )
        }
    }
}

/// Outcome of cancelling: all lines go, the total is zero, the sale is voided.
pub open spec fn resultado_cancelar(m: VentaModelo) -> Result<VentaModelo, LedgerError> {
    if m.estado != EstadoVenta::EnCurso {
        Err(LedgerError::InvalidStateTransition { estado: m.estado })
    } else {
        Ok(VentaModelo { total: 0, items: Seq::empty(), estado: EstadoVenta::Anulada, ..m })
    }
}

fn buscar_catalogo(items: &Vec<LineaVenta>, idp: i64) -> (r: Option<usize>)
    ensures
        match r {
            Some(k) => k < items.len() && k as int == ultima(items@, es_catalogo_de(idp)),
            None => ultima(items@, es_catalogo_de(idp)) == -1,
        },
{
    let mut j = items.len();
    while j > 0
        invariant
            j <= items.len(),
            forall|t: int| j <= t < items.len() ==> !es_catalogo_de(idp)(#[trigger] items@[t]),
        decreases j,
    {
        if items[j - 1].fuente_precio == FuentePrecio::Catalogo && items[j - 1].id_producto == idp {
            proof {
                lemma_ultima(items@, es_catalogo_de(idp), j - 1);
            }
            return Some(j - 1);
        }
        j = j - 1;
    }
    proof {
        lemma_ultima(items@, es_catalogo_de(idp), -1);
    }
    None
}

fn buscar_id(items: &Vec<LineaVenta>, id: i64) -> (r: Option<usize>)
    ensures
        match r {
            Some(k) => k < items.len() && k as int == ultima(items@, con_id(id)),
            None => ultima(items@, con_id(id)) == -1,
        },
{
    let mut j = items.len();
    while j > 0
        invariant
            j <= items.len(),
            forall|t: int| j <= t < items.len() ==> !con_id(id)(#[trigger] items@[t]),
        decreases j,
    {
        if items[j - 1].id_item == id {
            proof {
                lemma_ultima(items@, con_id(id), j - 1);
            }
            return Some(j - 1);
        }
        j = j - 1;
    }
    proof {
        lemma_ultima(items@, con_id(id), -1);
    }
    None
}

proof fn lemma_producto_i128(a: int, b: int)
    requires
        0 <= a <= i64::MAX + 1,
        0 <= b <= i64::MAX,
    ensures
        0 <= a * b <= (i64::MAX + 1) * i64::MAX,
{
    assert(0 <= a * b <= (i64::MAX + 1) * i64::MAX) by (nonlinear_arith)
        requires
            0 <= a <= i64::MAX + 1,
            0 <= b <= i64::MAX,
    ;
}

/// Starts a sale in progress, with total 0, for the operator of `ctx` on its
/// open register.
pub fn venta_iniciar(ctx: &SesionContexto, id_venta: i64, fecha_hora: String) -> (r: Result<
    Venta,
    LedgerError,
>)
    ensures
        match resultado_iniciar(*ctx, id_venta, fecha_hora) {
            Ok(m) => r matches Ok(v) && v@ == m && v.wf(),
            Err(e) => r matches Err(x) && x == e,
        },
{
    match (ctx.id_usuario, ctx.id_caja_abierta) {
        (None, _) => Err(LedgerError::NoSession),
        (Some(_), None) => Err(LedgerError::RegisterClosed),
        (Some(u), Some(c)) => Ok(
            Venta {
                id_venta,
                id_usuario: u,
                id_caja: c,
                fecha_hora,
                estado: EstadoVenta::EnCurso,
                total: 0,
                items: Vec::new(),
                pagos: Vec::new(),
                siguiente_id_item: 1,
            },
        ),
    }
}

/// Adds `cantidad` units of a product. An existing catalog-priced line of that
/// product grows (its unit price is not fetched again); otherwise a new line
/// takes the given catalog price and cost as its snapshot. The total follows.
pub fn venta_agregar_item(
    venta: &mut Venta,
    id_producto: i64,
    cantidad: i64,
    precio_catalogo: i64,
    costo_catalogo: i64,
) -> (r: Result<(), LedgerError>)
    requires
        old(venta).wf(),
    ensures
        final(venta).wf(),
        match resultado_agregar(old(venta)@, id_producto, cantidad, precio_catalogo, costo_catalogo) {
            Ok(m) => r is Ok && final(venta)@ == m,
            Err(e) => r == Err::<(), LedgerError>(e) && final(venta)@ == old(venta)@,
        },
{
    if venta.estado != EstadoVenta::EnCurso {
        return Err(LedgerError::InvalidStateTransition { estado: venta.estado });
    }
    if cantidad <= 0 {
        return Err(LedgerError::InvalidInput);
    }
    let ghost m = venta@;
    match buscar_catalogo(&venta.items, id_producto) {
        Some(k) => {
            let q: i128 = venta.items[k].cantidad as i128 + cantidad as i128;
            if q > i64::MAX as i128 {
                return Err(LedgerError::InvalidInput);
            }
            proof {
                assert(linea_ok(m.items[k as int]));
                lemma_producto_i128(q as int, venta.items[k as int].precio_unitario as int);
            }
            let sub: i128 = q * venta.items[k].precio_unitario as i128;
            let nt: i128 = venta.total as i128 - venta.items[k].subtotal as i128 + sub;
            if sub > i64::MAX as i128 || nt > i64::MAX as i128 || nt < i64::MIN as i128 {
                return Err(LedgerError::InvalidInput);
            }
            let mut nl = venta.items[k].copiar();
            nl.cantidad = q as i64;
            nl.subtotal = sub as i64;
            proof {
                lemma_suma_update(m.items, k as int, nl);
            }
            venta.items.set(k, nl);
            venta.total = nt as i64;
            assert(venta.items@ == m.items.update(k as int, nl));
            Ok(())
        },
        None => {
            if precio_catalogo < 0 || costo_catalogo < 0 || venta.siguiente_id_item == i64::MAX {
                return Err(LedgerError::InvalidInput);
            }
            proof {
                lemma_producto_i128(cantidad as int, precio_catalogo as int);
            }
            let sub: i128 = cantidad as i128 * precio_catalogo as i128;
            let nt: i128 = venta.total as i128 + sub;
            if sub > i64::MAX as i128 || nt > i64::MAX as i128 {
                return Err(LedgerError::InvalidInput);
            }
            let nl = LineaVenta {
                id_item: venta.siguiente_id_item,
                id_producto,
                cantidad,
                precio_unitario: precio_catalogo,
                precio_lista: precio_catalogo,
                costo_unitario_en_venta: costo_catalogo,
                fuente_precio: FuentePrecio::Catalogo,
                promo_combo_id: None,
                promo_grupo_id: None,
                                promo_precio_total: None,
                subtotal: sub as i64,
            };
            proof {
                lemma_suma_push(m.items, nl);
            }
            venta.items.push(nl);
            venta.total = nt as i64;
            venta.siguiente_id_item = venta.siguiente_id_item + 1;
            Ok(())
        },
    }
}

/// Sets the quantity of line `id_item`; its unit price is kept and its
/// subtotal and the sale total follow.
pub fn venta_set_cantidad(venta: &mut Venta, id_item: i64, cantidad: i64) -> (r: Result<
    (),
    LedgerError,
>)
    requires
        old(venta).wf(),
    ensures
        final(venta).wf(),
        match resultado_set_cantidad(old(venta)@, id_item, cantidad) {
            Ok(m) => r is Ok && final(venta)@ == m,
            Err(e) => r == Err::<(), LedgerError>(e) && final(venta)@ == old(venta)@,
        },
{
    if venta.estado != EstadoVenta::EnCurso {
        return Err(LedgerError::InvalidStateTransition { estado: venta.estado });
    }
    if cantidad <= 0 {
        return Err(LedgerError::InvalidInput);
    }
    let ghost m = venta@;
    match buscar_id(&venta.items, id_item) {
        None => Err(LedgerError::NotFound { id: id_item }),
        Some(k) => {
            proof {
                assert(linea_ok(m.items[k as int]));
                lemma_producto_i128(cantidad as int, venta.items[k as int].precio_unitario as int);
            }
            let sub: i128 = cantidad as i128 * venta.items[k].precio_unitario as i128;
            let nt: i128 = venta.total as i128 - venta.items[k].subtotal as i128 + sub;
            if sub > i64::MAX as i128 || nt > i64::MAX as i128 || nt < i64::MIN as i128 {
                return Err(LedgerError::InvalidInput);
            }
            let mut nl = venta.items[k].copiar();
            nl.cantidad = cantidad;
            nl.subtotal = sub as i64;
            proof {
                lemma_suma_update(m.items, k as int, nl);
            }
            venta.items.set(k, nl);
            venta.total = nt as i64;
            assert(venta.items@ == m.items.update(k as int, nl));
            Ok(())
        },
    }
}

/// Removes line `id_item`; the sale total follows.
pub fn venta_quitar_item(venta: &mut Venta, id_item: i64) -> (r: Result<(), LedgerError>)
    requires
        old(venta).wf(),
    ensures
        final(venta).wf(),
        match resultado_quitar(old(venta)@, id_item) {
            Ok(m) => r is Ok && final(venta)@ == m,
            Err(e) => r == Err::<(), LedgerError>(e) && final(venta)@ == old(venta)@,
        },
{
    if venta.estado != EstadoVenta::EnCurso {
        return Err(LedgerError::InvalidStateTransition { estado: venta.estado });
    }
    let ghost m = venta@;
    match buscar_id(&venta.items, id_item) {
        None => Err(LedgerError::NotFound { id: id_item }),
        Some(k) => {
            proof {
                lemma_suma_remove(m.items, k as int);
                lemma_subtotal_acotado(m.items, k as int);
            }
            let quitada = venta.items.remove(k);
            venta.total = venta.total - quitada.subtotal;
            assert forall|i: int, j: int|
                0 <= i < j < venta.items.len() implies #[trigger] venta.items@[i].id_item
                != #[trigger] venta.items@[j].id_item by {
                let a = if i < k { i } else { i + 1 };
                let b = if j < k { j } else { j + 1 };
                assert(venta.items@[i] == m.items[a] && venta.items@[j] == m.items[b]);
            }
            Ok(())
        },
    }
}

/// Voids a sale in progress: all lines go and the total is zero.
pub fn venta_cancelar(venta: &mut Venta) -> (r: Result<(), LedgerError>)
    requires
        old(venta).wf(),
    ensures
        final(venta).wf(),
        match resultado_cancelar(old(venta)@) {
            Ok(m) => r is Ok && final(venta)@ == m,
            Err(e) => r == Err::<(), LedgerError>(e) && final(venta)@ == old(venta)@,
        },
{
    if venta.estado != EstadoVenta::EnCurso {
        return Err(LedgerError::InvalidStateTransition { estado: venta.estado });
    }
    venta.items = Vec::new();
    venta.total = 0;
    venta.estado = EstadoVenta::Anulada;
    assert(venta.items@ =~= Seq::<LineaVenta>::empty());
    Ok(())
}

/// In a sequence of well-formed lines each subtotal is non-negative and at
/// most the sum of all subtotals.
proof fn lemma_subtotal_acotado(s: Seq<LineaVenta>, k: int)
    requires
        0 <= k < s.len(),
        forall|i: int| 0 <= i < s.len() ==> linea_ok(#[trigger] s[i]),
    ensures
        0 <= s[k].subtotal <= suma_subtotales(s),
    decreases s.len(),
{
    let r = s.drop_last();
    assert forall|i: int| 0 <= i < r.len() implies linea_ok(#[trigger] r[i]) by {
        assert(r[i] == s[i]);
    }
    lemma_suma_no_negativa(r);
    assert(linea_ok(s[s.len() - 1]));
    assert(s[s.len() - 1].subtotal >= 0) by (nonlinear_arith)
        requires
            s[s.len() - 1].subtotal == s[s.len() - 1].cantidad * s[s.len() - 1].precio_unitario,
            s[s.len() - 1].cantidad > 0,
            s[s.len() - 1].precio_unitario >= 0,
    ;
    if k < s.len() - 1 {
        lemma_subtotal_acotado(r, k);
    }
}

/// The subtotals of well-formed lines add up to a non-negative sum.
proof fn lemma_suma_no_negativa(s: Seq<LineaVenta>)
    requires
        forall|i: int| 0 <= i < s.len() ==> linea_ok(#[trigger] s[i]),
    ensures
        suma_subtotales(s) >= 0,
    decreases s.len(),
{
    if s.len() > 0 {
        let r = s.drop_last();
        assert forall|i: int| 0 <= i < r.len() implies linea_ok(#[trigger] r[i]) by {
            assert(r[i] == s[i]);
        }
        lemma_suma_no_negativa(r);
        assert(linea_ok(s[s.len() - 1]));
        assert(s[s.len() - 1].subtotal >= 0) by (nonlinear_arith)
            requires
                s[s.len() - 1].subtotal == s[s.len() - 1].cantidad
                    * s[s.len() - 1].precio_unitario,
                s[s.len() - 1].cantidad > 0,
                s[s.len() - 1].precio_unitario >= 0,
        ;
    }
}

/// The stock decrement of a line, at its snapshotted cost.
pub open spec fn movimiento_de(l: LineaVenta) -> MovimientoStock {
    MovimientoStock {
        id_producto: l.id_producto,
        cantidad_delta: (-l.cantidad) as i64,
        costo_unitario: l.costo_unitario_en_venta,
        total_costo: (l.cantidad * l.costo_unitario_en_venta) as i64,
    }
}

/// The stock decrements of all lines, in line order.
pub open spec fn movimientos(s: Seq<LineaVenta>) -> Seq<MovimientoStock> {
    s.map_values(|l: LineaVenta| movimiento_de(l))
}

/// Every payment amount is positive.
pub open spec fn montos_positivos(p: Seq<PagoInput>) -> bool {
    forall|i: int| 0 <= i < p.len() ==> #[trigger] p[i].monto > 0
}

/// The cost of every line fits in the amount range.
pub open spec fn costos_caben(s: Seq<LineaVenta>) -> bool {
    forall|i: int|
        0 <= i < s.len() ==> cabe(#[trigger] s[i].cantidad * s[i].costo_unitario_en_venta)
}

/// Why a sale cannot be finalized with `pagos`, if it cannot: no open
/// register, not in progress, no lines, a non-positive total, a non-positive
/// payment or a line cost out of range, or payments that do not add up to the
/// total exactly.
pub open spec fn error_finalizar(m: VentaModelo, ctx: SesionContexto, pagos: Seq<PagoInput>) -> Option<
    LedgerError,
> {
    if ctx.id_caja_abierta is None {
        Some(LedgerError::RegisterClosed)
    } else if m.estado != EstadoVenta::EnCurso {
        Some(LedgerError::InvalidStateTransition { estado: m.estado })
    } else if m.items.len() == 0 || m.total <= 0 || !montos_positivos(pagos) || !costos_caben(
        m.items,
    ) {
        Some(LedgerError::InvalidInput)
    } else if suma_pagos(pagos) != m.total {
        Some(LedgerError::PaymentMismatch { pagado: suma_pagos(pagos) as i128, total: m.total })
    } else {
        None
    }
}

/// The sale once finalized with `pagos`.
pub open spec fn finalizada(m: VentaModelo, pagos: Seq<PagoInput>) -> VentaModelo {
    VentaModelo { estado: EstadoVenta::Finalizada, pagos, ..m }
}

/// An edited line is acceptable: positive quantity, non-negative price, a
/// resolved non-negative cost and a subtotal in range.
pub open spec fn item_editar_ok(it: VentaEditarItemInput) -> bool {
    &&& it.cantidad > 0
    &&& it.precio_unitario >= 0
    &&& it.costo_unitario_en_venta matches Some(c) && c >= 0
    &&& cabe(it.cantidad * it.precio_unitario)
}

/// The sale line made from an edited line, with identifier `id`.
pub open spec fn linea_editada(it: VentaEditarItemInput, id: int) -> LineaVenta {
    LineaVenta {
        id_item: id as i64,
        id_producto: it.id_producto,
        cantidad: it.cantidad,
        precio_unitario: it.precio_unitario,
        precio_lista: it.precio_unitario,
        costo_unitario_en_venta: it.costo_unitario_en_venta.unwrap(),
        fuente_precio: it.fuente_precio,
        promo_combo_id: None,
        promo_grupo_id: None,
                                promo_precio_total: None,
        subtotal: (it.cantidad * it.precio_unitario) as i64,
    }
}

/// The new lines of a re-edit, numbered from `desde`.
pub open spec fn lineas_editadas(items: Seq<VentaEditarItemInput>, desde: int) -> Seq<LineaVenta> {
    items.map(|i: int, it: VentaEditarItemInput| linea_editada(it, desde + i))
}

/// The re-edited sale back in progress, before it is finalized again.
pub open spec fn reabierta(m: VentaModelo, items: Seq<VentaEditarItemInput>) -> VentaModelo {
    let lineas = lineas_editadas(items, m.siguiente_id_item as int);
    VentaModelo {
        estado: EstadoVenta::EnCurso,
        items: lineas,
        total: suma_subtotales(lineas) as i64,
        siguiente_id_item: (m.siguiente_id_item + items.len()) as i64,
        ..m
    }
}

/// Outcome of reopening a finalized sale, replacing its lines and payments
/// and finalizing it again, as one step.
pub open spec fn resultado_editar(
    m: VentaModelo,
    ctx: SesionContexto,
    items: Seq<VentaEditarItemInput>,
    pagos: Seq<PagoInput>,
) -> Result<VentaModelo, LedgerError> {
    if m.estado != EstadoVenta::Finalizada {
        Err(LedgerError::InvalidStateTransition { estado: m.estado })
    } else if items.len() == 0 || !(forall|i: int|
        0 <= i < items.len() ==> item_editar_ok(#[trigger] items[i])) || m.siguiente_id_item
        + items.len() > i64::MAX || !cabe(
        suma_subtotales(lineas_editadas(items, m.siguiente_id_item as int)),
    ) {
        Err(LedgerError::InvalidInput)
    } else {
        match error_finalizar(reabierta(m, items), ctx, pagos) {
            Some(e) => Err(e),
            None => Ok(finalizada(reabierta(m, items), pagos)),
        }
    }
}

proof fn lemma_suma_pagos_push(s: Seq<PagoInput>, p: PagoInput)
    ensures
        suma_pagos(s.push(p)) == suma_pagos(s) + p.monto,
{
    assert(s.push(p).drop_last() =~= s);
}

/// Checks that `venta` can be finalized with `pagos` and computes its stock
/// decrements, without changing anything.
fn validar_finalizar(venta: &Venta, ctx: &SesionContexto, pagos: &Vec<PagoInput>) -> (r: Result<
    Vec<MovimientoStock>,
    LedgerError,
>)
    requires
        venta.wf(),
    ensures
        match error_finalizar(venta@, *ctx, pagos@) {
            Some(e) => r == Err::<Vec<MovimientoStock>, LedgerError>(e),
            None => r matches Ok(movs) && movs@ == movimientos(venta@.items),
        },
{
    if ctx.id_caja_abierta.is_none() {
        return Err(LedgerError::RegisterClosed);
    }
    if venta.estado != EstadoVenta::EnCurso {
        return Err(LedgerError::InvalidStateTransition { estado: venta.estado });
    }
    if venta.items.len() == 0 || venta.total <= 0 {
        return Err(LedgerError::InvalidInput);
    }
    let mut pagado: i128 = 0;
    let mut i: usize = 0;
    while i < pagos.len()
        invariant
            venta.estado == EstadoVenta::EnCurso,
            ctx.id_caja_abierta is Some,
            i <= pagos.len(),
            forall|t: int| 0 <= t < i ==> #[trigger] pagos@[t].monto > 0,
            pagado == suma_pagos(pagos@.take(i as int)),
            0 <= pagado <= i * 0x7fff_ffff_ffff_ffff,
        decreases pagos.len() - i,
    {
        if pagos[i].monto <= 0 {
            assert(!montos_positivos(pagos@)) by {
                assert(!(pagos@[i as int].monto > 0));
            }
            return Err(LedgerError::InvalidInput);
        }
        proof {
            assert(pagos@.take(i + 1) =~= pagos@.take(i as int).push(pagos@[i as int]));
            lemma_suma_pagos_push(pagos@.take(i as int), pagos@[i as int]);
        }
        pagado = pagado + pagos[i].monto as i128;
        i = i + 1;
    }
    assert(pagos@.take(pagos.len() as int) =~= pagos@);
    let mut movs: Vec<MovimientoStock> = Vec::new();
    let mut j: usize = 0;
    while j < venta.items.len()
        invariant
            venta.wf(),
            venta.estado == EstadoVenta::EnCurso,
            ctx.id_caja_abierta is Some,
            venta.items.len() > 0,
            venta.total > 0,
            montos_positivos(pagos@),
            j <= venta.items.len(),
            movs.len() == j,
            forall|t: int| 0 <= t < j ==> cabe(#[trigger] venta.items@[t].cantidad * venta.items@[t].costo_unitario_en_venta),
            forall|t: int| 0 <= t < j ==> #[trigger] movs@[t] == movimiento_de(venta.items@[t]),
        decreases venta.items.len() - j,
    {
        let l = &venta.items[j];
        proof {
            assert(linea_ok(venta.items@[j as int]));
            lemma_producto_i128(l.cantidad as int, l.costo_unitario_en_venta as int);
        }
        let costo: i128 = l.cantidad as i128 * l.costo_unitario_en_venta as i128;
        if costo > i64::MAX as i128 {
            assert(!costos_caben(venta@.items)) by {
                assert(!cabe(venta@.items[j as int].cantidad * venta@.items[j as int].costo_unitario_en_venta));
            }
            return Err(LedgerError::InvalidInput);
        }
        movs.push(
            MovimientoStock {
                id_producto: l.id_producto,
                cantidad_delta: -l.cantidad,
                costo_unitario: l.costo_unitario_en_venta,
                total_costo: costo as i64,
            },
        );
        j = j + 1;
    }
    assert(movs@ =~= movimientos(venta@.items));
    if pagado != venta.total as i128 {
        return Err(LedgerError::PaymentMismatch { pagado, total: venta.total });
    }
    Ok(movs)
}

/// Finalizes a sale in progress: the payments must add up to the total
/// exactly. On success the payments replace any earlier ones, the sale is
/// finalized, and the stock decrements of its lines, one per line at the
/// line's snapshotted cost, are returned for the caller to record in the same
/// transaction. On failure nothing changes.
pub fn venta_finalizar(venta: &mut Venta, ctx: &SesionContexto, pagos: Vec<PagoInput>) -> (r: Result<
    Vec<MovimientoStock>,
    LedgerError,
>)
    requires
        old(venta).wf(),
    ensures
        final(venta).wf(),
        match error_finalizar(old(venta)@, *ctx, pagos@) {
            Some(e) => r == Err::<Vec<MovimientoStock>, LedgerError>(e) && final(venta)@ == old(
                venta,
            )@,
            None => r matches Ok(movs) && movs@ == movimientos(old(venta)@.items) && final(venta)@
                == finalizada(old(venta)@, pagos@),
        },
{
    let movs = validar_finalizar(venta, ctx, &pagos)?;
    venta.pagos = pagos;
    venta.estado = EstadoVenta::Finalizada;
    Ok(movs)
}

proof fn lemma_suma_lineas_editadas(items: Seq<VentaEditarItemInput>, desde: int, k: int)
    requires
        0 <= k < items.len(),
    ensures
        suma_subtotales(lineas_editadas(items, desde).take(k + 1)) == suma_subtotales(
            lineas_editadas(items, desde).take(k),
        ) + linea_editada(items[k], desde + k).subtotal,
{
    let s = lineas_editadas(items, desde);
    assert(s.take(k + 1).drop_last() =~= s.take(k));
}

/// Reopens a finalized sale, replaces its lines and payments and finalizes it
/// again, as one step: when any check fails, the sale keeps its finalized
/// state, lines and payments. On success the stock decrements of the new lines
/// are returned.
pub fn venta_admin_editar_guardar(
    venta: &mut Venta,
    ctx: &SesionContexto,
    items: Vec<VentaEditarItemInput>,
    pagos: Vec<PagoInput>,
) -> (r: Result<Vec<MovimientoStock>, LedgerError>)
    requires
        old(venta).wf(),
    ensures
        final(venta).wf(),
        match resultado_editar(old(venta)@, *ctx, items@, pagos@) {
            Ok(m) => r matches Ok(movs) && movs@ == movimientos(m.items) && final(venta)@ == m,
            Err(e) => r == Err::<Vec<MovimientoStock>, LedgerError>(e) && final(venta)@ == old(
                venta,
            )@,
        },
{
    if venta.estado != EstadoVenta::Finalizada {
        return Err(LedgerError::InvalidStateTransition { estado: venta.estado });
    }
    let n = items.len();
    if n == 0 || venta.siguiente_id_item as i128 + n as i128 > i64::MAX as i128 {
        return Err(LedgerError::InvalidInput);
    }
    let ghost m = venta@;
    let ghost esperado = lineas_editadas(items@, m.siguiente_id_item as int);
    let mut lineas: Vec<LineaVenta> = Vec::new();
    let mut total: i128 = 0;
    let mut i: usize = 0;
    while i < n
        invariant
            n == items.len(),
            i <= n,
            m.siguiente_id_item + n <= i64::MAX,
            esperado == lineas_editadas(items@, m.siguiente_id_item as int),
            m == venta@,
            venta.wf(),
            m.estado == EstadoVenta::Finalizada,
            n > 0,
            lineas.len() == i,
            forall|t: int| 0 <= t < i ==> item_editar_ok(#[trigger] items@[t]),
            forall|t: int| 0 <= t < i ==> #[trigger] lineas@[t] == esperado[t],
            total == suma_subtotales(esperado.take(i as int)),
            0 <= total <= i * 0x7fff_ffff_ffff_ffff,
        decreases n - i,
    {
        let it = items[i];
        let costo = match it.costo_unitario_en_venta {
            Some(c) => c,
            None => {
                assert(!item_editar_ok(items@[i as int]));
                return Err(LedgerError::InvalidInput);
            },
        };
        if it.cantidad <= 0 || it.precio_unitario < 0 || costo < 0 {
            assert(!item_editar_ok(items@[i as int]));
            return Err(LedgerError::InvalidInput);
        }
        proof {
            lemma_producto_i128(it.cantidad as int, it.precio_unitario as int);
        }
        let sub: i128 = it.cantidad as i128 * it.precio_unitario as i128;
        if sub > i64::MAX as i128 {
            assert(!item_editar_ok(items@[i as int]));
            return Err(LedgerError::InvalidInput);
        }
        proof {
            lemma_suma_lineas_editadas(items@, m.siguiente_id_item as int, i as int);
        }
        lineas.push(
            LineaVenta {
                id_item: (venta.siguiente_id_item as i128 + i as i128) as i64,
                id_producto: it.id_producto,
                cantidad: it.cantidad,
                precio_unitario: it.precio_unitario,
                precio_lista: it.precio_unitario,
                costo_unitario_en_venta: costo,
                fuente_precio: it.fuente_precio,
                promo_combo_id: None,
                promo_grupo_id: None,
                                promo_precio_total: None,
                subtotal: sub as i64,
            },
        );
        total = total + sub;
        i = i + 1;
    }
    assert(lineas@ =~= esperado);
    assert(esperado.take(n as int) =~= esperado);
    if total > i64::MAX as i128 {
        return Err(LedgerError::InvalidInput);
    }
    let candidata = Venta {
        id_venta: venta.id_venta,
        id_usuario: venta.id_usuario,
        id_caja: venta.id_caja,
        fecha_hora: venta.fecha_hora.clone(),
        estado: EstadoVenta::EnCurso,
        total: total as i64,
        items: lineas,
        pagos: Vec::new(),
        siguiente_id_item: (venta.siguiente_id_item as i128 + n as i128) as i64,
    };
    assert forall|t: int| 0 <= t < n implies linea_ok(#[trigger] candidata.items@[t])
        && candidata.items@[t].id_item == m.siguiente_id_item + t by {
        assert(item_editar_ok(items@[t]));
        assert(candidata.items@[t] == esperado[t]);
    }
    assert forall|a: int, b: int|
        0 <= a < b < n implies #[trigger] candidata.items@[a].id_item
        != #[trigger] candidata.items@[b].id_item by {
        assert(candidata.items@[a].id_item == m.siguiente_id_item + a);
        assert(candidata.items@[b].id_item == m.siguiente_id_item + b);
    }
    let movs = validar_finalizar(&candidata, ctx, &pagos)?;
    venta.estado = EstadoVenta::Finalizada;
    venta.total = candidata.total;
    venta.items = candidata.items;
    venta.pagos = pagos;
    venta.siguiente_id_item = candidata.siguiente_id_item;
    Ok(movs)
}

/// The sum of the subtotals of well-formed lines, computed without overflow.
pub fn sumar_subtotales(items: &Vec<LineaVenta>) -> (r: i128)
    requires
        forall|i: int| 0 <= i < items.len() ==> linea_ok(#[trigger] items@[i]),
    ensures
        r == suma_subtotales(items@),
        r >= 0,
{
    let mut acc: i128 = 0;
    let mut i: usize = 0;
    while i < items.len()
        invariant
            i <= items.len(),
            forall|t: int| 0 <= t < items.len() ==> linea_ok(#[trigger] items@[t]),
            acc == suma_subtotales(items@.take(i as int)),
            0 <= acc <= i * 0x7fff_ffff_ffff_ffff,
        decreases items.len() - i,
    {
        proof {
            assert(items@.take(i + 1).drop_last() =~= items@.take(i as int));
            let l = items@[i as int];
            assert(linea_ok(l));
            assert(l.subtotal >= 0) by (nonlinear_arith)
                requires
                    l.subtotal == l.cantidad * l.precio_unitario,
                    l.cantidad > 0,
                    l.precio_unitario >= 0,
            ;
        }
        acc = acc + items[i].subtotal as i128;
        i = i + 1;
    }
    assert(items@.take(items.len() as int) =~= items@);
    acc
}

impl Venta {
    /// Whether the sale is consistent (see `modelo_ok`): every ledger
    /// operation asks for it, so a sale read from a store is checked first.
    pub fn es_consistente(&self) -> (r: bool)
        ensures
            r == self.wf(),
    {
        let n = self.items.len();
        let mut i: usize = 0;
        while i < n
            invariant
                n == self.items.len(),
                i <= n,
                forall|t: int| 0 <= t < i ==> linea_ok(#[trigger] self.items@[t]),
                forall|t: int| 0 <= t < i ==> #[trigger] self.items@[t].id_item < self.siguiente_id_item,
                forall|a: int, b: int|
                    0 <= a < b < i ==> #[trigger] self.items@[a].id_item
                        != #[trigger] self.items@[b].id_item,
            decreases n - i,
        {
            let l = &self.items[i];
            if l.cantidad <= 0 || l.precio_unitario < 0 || l.costo_unitario_en_venta < 0
                || l.id_item >= self.siguiente_id_item {
                assert(!self.wf()) by {
                    assert(!(linea_ok(self.items@[i as int]) && self.items@[i as int].id_item
                        < self.siguiente_id_item));
                }
                return false;
            }
            proof {
                lemma_producto_i128(l.cantidad as int, l.precio_unitario as int);
            }
            if l.cantidad as i128 * l.precio_unitario as i128 != l.subtotal as i128 {
                assert(!self.wf()) by {
                    assert(!linea_ok(self.items@[i as int]));
                }
                return false;
            }
            let mut j: usize = 0;
            while j < i
                invariant
                    n == self.items.len(),
                    j <= i,
                    i < n,
                    forall|t: int| 0 <= t < j ==> self.items@[t].id_item != self.items@[i as int].id_item,
                decreases i - j,
            {
                if self.items[j].id_item == self.items[i].id_item {
                    assert(!self.wf()) by {
                        assert(self.items@[j as int].id_item == self.items@[i as int].id_item);
                    }
                    return false;
                }
                j = j + 1;
            }
            i = i + 1;
        }
        let suma = sumar_subtotales(&self.items);
        if suma != self.total as i128 {
            return false;
        }
        if self.estado == EstadoVenta::Anulada && n > 0 {
            return false;
        }
        true
    }
}

/// A copy of an optional text.
fn copiar_texto(t: &Option<String>) -> (r: Option<String>)
    ensures
        r == *t,
{
    match t {
        Some(s) => Some(s.clone()),
        None => None,
    }
}

impl LineaVenta {
    /// A field-by-field copy of the line.
    pub fn copiar(&self) -> (r: LineaVenta)
        ensures
            r == *self,
    {
        LineaVenta {
            id_item: self.id_item,
            id_producto: self.id_producto,
            cantidad: self.cantidad,
            precio_unitario: self.precio_unitario,
            precio_lista: self.precio_lista,
            costo_unitario_en_venta: self.costo_unitario_en_venta,
            fuente_precio: self.fuente_precio,
            promo_combo_id: self.promo_combo_id,
            promo_grupo_id: copiar_texto(&self.promo_grupo_id),
            promo_precio_total: self.promo_precio_total,
            subtotal: self.subtotal,
        }
    }
}

impl PagoInput {
    /// A field-by-field copy of the payment.
    pub fn copiar(&self) -> (r: PagoInput)
        ensures
            r == *self,
    {
        PagoInput { medio: self.medio, monto: self.monto, referencia: copiar_texto(&self.referencia) }
    }
}

} // verus!
