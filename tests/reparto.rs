use pos_core::error::LedgerError;
use pos_core::reparto::{dividir_total_en_unitarios, repartir_total_proporcional};

#[test]
fn reparto_pesos_iguales_desempata_por_orden() {
    let r = repartir_total_proporcional(100, &vec![(1, 100), (2, 100), (3, 100)]).unwrap();
    assert_eq!(r, vec![(1, 34), (2, 33), (3, 33)]);
    assert_eq!(r.iter().map(|x| x.1).sum::<i64>(), 100);
}

#[test]
fn reparto_resto_mayor_recibe_la_unidad() {
    let r = repartir_total_proporcional(10, &vec![(1, 1), (2, 2)]).unwrap();
    assert_eq!(r, vec![(1, 3), (2, 7)]);
}

#[test]
fn reparto_total_cero() {
    let r = repartir_total_proporcional(0, &vec![(5, 3), (6, 9)]).unwrap();
    assert_eq!(r, vec![(5, 0), (6, 0)]);
}

#[test]
fn reparto_con_peso_cero() {
    let r = repartir_total_proporcional(7, &vec![(1, 0), (2, 5), (3, 0)]).unwrap();
    assert_eq!(r, vec![(1, 0), (2, 7), (3, 0)]);
}

#[test]
fn reparto_varios_restos() {
    let pesos = vec![(1, 3), (2, 3), (3, 3), (4, 1)];
    let r = repartir_total_proporcional(11, &pesos).unwrap();
    assert_eq!(r.iter().map(|x| x.1).sum::<i64>(), 11);
    assert_eq!(r, vec![(1, 4), (2, 3), (3, 3), (4, 1)]);
}

#[test]
fn reparto_montos_grandes_sin_perdida() {
    let r = repartir_total_proporcional(i64::MAX, &vec![(1, i64::MAX), (2, i64::MAX), (3, 1)]).unwrap();
    assert_eq!(r.iter().map(|x| x.1 as i128).sum::<i128>(), i64::MAX as i128);
}

#[test]
fn reparto_total_negativo_invalido() {
    assert_eq!(repartir_total_proporcional(-1, &vec![(1, 1)]), Err(LedgerError::InvalidInput));
}

#[test]
fn reparto_pesos_nulos_invalido() {
    assert_eq!(repartir_total_proporcional(10, &vec![(1, 0), (2, 0)]), Err(LedgerError::InvalidInput));
    assert_eq!(repartir_total_proporcional(10, &vec![]), Err(LedgerError::InvalidInput));
}

#[test]
fn reparto_peso_negativo_invalido() {
    assert_eq!(repartir_total_proporcional(10, &vec![(1, 5), (2, -1)]), Err(LedgerError::InvalidInput));
}

#[test]
fn unitarios_cien_en_tres() {
    let (base, resto) = dividir_total_en_unitarios(100, 3).unwrap();
    assert_eq!((base, resto), (33, 1));
    assert_eq!(resto * (base + 1) + (3 - resto) * base, 100);
}

#[test]
fn unitarios_exactos() {
    assert_eq!(dividir_total_en_unitarios(250, 2), Ok((125, 0)));
    assert_eq!(dividir_total_en_unitarios(0, 4), Ok((0, 0)));
}

#[test]
fn unitarios_invalidos() {
    assert_eq!(dividir_total_en_unitarios(10, 0), Err(LedgerError::InvalidInput));
    assert_eq!(dividir_total_en_unitarios(-5, 2), Err(LedgerError::InvalidInput));
}
