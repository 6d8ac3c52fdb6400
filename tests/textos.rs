use pos_core::error::LedgerError;
use pos_core::fecha::ym_from_iso_date;
use pos_core::stock::TipoPrecio;
use pos_core::texto::{norm_opt_str, norm_opt_string, norm_str, texto_igual};

#[test]
fn normaliza_textos() {
    assert_eq!(norm_str("  cuota luz \t"), "cuota luz");
    assert_eq!(norm_opt_string(Some("  nota ".to_string())), Some("nota".to_string()));
    assert_eq!(norm_opt_string(Some("   ".to_string())), None);
    assert_eq!(norm_opt_string(None), None);
    assert_eq!(norm_opt_str(Some(" x ")), Some("x"));
    assert_eq!(norm_opt_str(Some("")), None);
}

#[test]
fn compara_textos() {
    assert!(texto_igual("dia", "dia"));
    assert!(!texto_igual("dia", "día"));
    assert!(!texto_igual("dia", "di"));
}

#[test]
fn prefijo_de_mes() {
    assert_eq!(ym_from_iso_date("2024-03-15"), Ok("2024-03".to_string()));
    assert_eq!(ym_from_iso_date("2024-0"), Err(LedgerError::InvalidInput));
}

#[test]
fn tipo_de_precio_desde_texto() {
    assert_eq!(TipoPrecio::try_from("venta"), Ok(TipoPrecio::Venta));
    assert_eq!(TipoPrecio::try_from("costo"), Ok(TipoPrecio::Costo));
    assert_eq!(TipoPrecio::try_from("Venta"), Err(()));
}
