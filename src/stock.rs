//! Catalog price kinds, restocking modes and purchase units.

use vstd::prelude::*;
use crate::error::LedgerError;
use crate::texto::texto_igual;

verus! {

/// Kind of a catalog price entry.
#[derive(Debug, Clone, Copy, PartialEq, Eq, Structural)]
pub enum TipoPrecio {
    Venta,
    Costo,
}

impl TipoPrecio {
    /// The stored name of the kind.
    pub fn as_str(self) -> (r: &'static str)
        ensures
            self == TipoPrecio::Venta ==> r@ == "venta"@,
            self == TipoPrecio::Costo ==> r@ == "costo"@,
    {
        match self {
            TipoPrecio::Venta => "venta",
            TipoPrecio::Costo => "costo",
        }
    }
}

impl TipoPrecio {
    /// The kind stored as `"venta"` or `"costo"`; any other name is refused.
    pub fn try_from(s: &str) -> (r: Result<TipoPrecio, ()>)
        ensures
            s@ == "venta"@ ==> r == Ok::<TipoPrecio, ()>(TipoPrecio::Venta),
            s@ == "costo"@ ==> r == Ok::<TipoPrecio, ()>(TipoPrecio::Costo),
            s@ != "venta"@ && s@ != "costo"@ ==> r is Err,
    {
        proof {
            reveal_strlit("venta");
            reveal_strlit("costo");
            assert("venta"@[0] != "costo"@[0]);
        }
        if texto_igual(s, "venta") {
            Ok(TipoPrecio::Venta)
        } else if texto_igual(s, "costo") {
            Ok(TipoPrecio::Costo)
        } else {
            Err(())
        }
    }
}

/// How a product is restocked: by the unit or by the crate.
#[derive(Debug, Clone, Copy, PartialEq, Eq, Structural)]
pub enum ReposicionModo {
    Unitario,
    Cajon,
}

impl ReposicionModo {
    /// The stored name of the mode.
    pub fn as_str(self) -> (r: &'static str)
        ensures
            self == ReposicionModo::Unitario ==> r@ == "unitario"@,
            self == ReposicionModo::Cajon ==> r@ == "cajon"@,
    {
        match self {
            ReposicionModo::Unitario => "unitario",
            ReposicionModo::Cajon => "cajon",
        }
    }
}

/// Unit in which stock is bought.
#[derive(Debug, Clone, Copy, PartialEq, Eq, Structural)]
pub enum UnidadCompra {
    MAPLE,
    CAJON,
}

impl UnidadCompra {
    /// The stored name of the unit.
    pub fn as_str(self) -> (r: &'static str)
        ensures
            self == UnidadCompra::MAPLE ==> r@ == "MAPLE"@,
            self == UnidadCompra::CAJON ==> r@ == "CAJON"@,
    {
        match self {
            UnidadCompra::MAPLE => "MAPLE",
            UnidadCompra::CAJON => "CAJON",
        }
    }
}

/// Units of stock per purchase unit: 1 for `"MAPLE"`, 12 for `"CAJON"`; any
/// other name is refused.
pub fn factor_por_unidad(unidad: &str) -> (r: Result<i64, LedgerError>)
    ensures
        unidad@ == "MAPLE"@ ==> r == Ok::<i64, LedgerError>(1),
        unidad@ == "CAJON"@ ==> r == Ok::<i64, LedgerError>(12),
        unidad@ != "MAPLE"@ && unidad@ != "CAJON"@ ==> r == Err::<i64, LedgerError>(
            LedgerError::InvalidInput,
        ),
{
    proof {
        reveal_strlit("MAPLE");
        reveal_strlit("CAJON");
        assert("MAPLE"@[0] != "CAJON"@[0]);
    }
    if texto_igual(unidad, "MAPLE") {
        Ok(1)
    } else if texto_igual(unidad, "CAJON") {
        Ok(12)
    } else {
        Err(LedgerError::InvalidInput)
    }
}

} // verus!
