use posible::cover::{cover_pixels, COVER_SIDE};

/// A 2x2 PNG, every pixel pure blue.
const AZUL: [u8; 72] = [
    0x89, 0x50, 0x4e, 0x47, 0x0d, 0x0a, 0x1a, 0x0a, 0x00, 0x00, 0x00, 0x0d, 0x49, 0x48, 0x44, 0x52, 0x00, 0x00,
    0x00, 0x02, 0x00, 0x00, 0x00, 0x02, 0x08, 0x02, 0x00, 0x00, 0x00, 0xfd, 0xd4, 0x9a, 0x73, 0x00, 0x00, 0x00,
    0x0f, 0x49, 0x44, 0x41, 0x54, 0x78, 0x9c, 0x63, 0x60, 0x60, 0xf8, 0x0f, 0x46, 0x60, 0x0a, 0x00, 0x17, 0xf6,
    0x03, 0xfd, 0x7e, 0xeb, 0x37, 0xf3, 0x00, 0x00, 0x00, 0x00, 0x49, 0x45, 0x4e, 0x44, 0xae, 0x42, 0x60, 0x82,
];

#[test]
fn una_portada_se_reduce_a_un_cuadrado_pequeno() {
    let px = cover_pixels(&AZUL).expect("un PNG valido se lee");
    assert_eq!(px.len(), (COVER_SIDE * COVER_SIDE) as usize);
    assert!(px.iter().all(|&p| p == (0, 0, 255)), "una portada azul sigue siendo azul");
}

#[test]
fn lo_que_no_es_imagen_no_da_pixeles() {
    assert!(cover_pixels(b"esto no es una imagen").is_none());
    assert!(cover_pixels(&[]).is_none());
}
