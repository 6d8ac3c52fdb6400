use vstd::prelude::*;

verus! {

/// Life-cycle state of a sale.
#[derive(Debug, Clone, Copy, PartialEq, Eq, Structural)]
pub enum EstadoVenta {
    /// Open cart: lines may change.
    EnCurso,
    /// Closed and payment-reconciled.
    Finalizada,
    /// Cancelled draft.
    Anulada,
}

/// Closed set of failure kinds, each with the values that caused it.
#[derive(Debug, Clone, Copy, PartialEq, Eq, Structural)]
pub enum LedgerError {
    /// A malformed or negative amount, an unknown granularity token, or a
    /// value that does not fit in the integer range of the ledger.
    InvalidInput,
    /// The operation is not allowed in the sale's current state.
    InvalidStateTransition { estado: EstadoVenta },
    /// A promotion needs more units of a product than the cart holds.
    InsufficientQuantity { id_producto: i64, requerida: i64 },
    /// The payments do not add up to the sale total.
    PaymentMismatch { pagado: i128, total: i64 },
    /// No operator is logged in.
    NoSession,
    /// No register session is open.
    RegisterClosed,
    /// An unknown sale, line, combo or product.
    NotFound { id: i64 },
    /// The store is busy; the caller may retry.
    Busy,
    /// The store timed out; the caller may retry.
    Timeout,
}

} // verus!
