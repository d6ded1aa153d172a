use posible::lyrics::{best_of, build, clean, lrc_is_parsable, parse_lrc, parse_stamp, pick, stamp_is_parsable, LrclibTrack};

#[test]
fn parsea_lrc_con_ventanas() {
    let lrc = "[00:12.50]Primera linea\n[00:15.00]Segunda\n[00:18.25]Tercera";
    let lines = parse_lrc(lrc);
    assert_eq!(lines.len(), 3);
    assert_eq!(lines[0].start_ms, 12_500);
    assert_eq!(lines[0].end_ms, 15_000, "la ventana llega a la siguiente");
    assert_eq!(lines[2].end_ms, 23_250, "la ultima dura 5 s");
}

#[test]
fn acepta_marcas_multiples_en_una_linea() {
    let lines = parse_lrc("[00:10.00][01:20.00]Estribillo");
    assert_eq!(lines.len(), 2);
    assert_eq!(lines[0].start_ms, 10_000);
    assert_eq!(lines[1].start_ms, 80_000);
}

#[test]
fn limpia_el_ruido_de_los_titulos_de_youtube() {
    let (t, a) = clean(
        "Never Gonna Give You Up (Official Video) [4K Remaster]",
        "Rick Astley \u{2022} Whenever You Need Somebody \u{2022} 3:33",
    );
    assert_eq!(t, "Never Gonna Give You Up");
    assert_eq!(a, "Rick Astley");
}

#[test]
fn tolera_marcas_sin_centesimas() {
    assert_eq!(parse_stamp("01:30"), Some(90_000));
    assert_eq!(parse_stamp("00:05.5"), Some(5_500));
    assert_eq!(parse_stamp("00:05.123"), Some(5_123));
}

#[test]
fn las_ventanas_se_encadenan_en_orden() {
    let lines = parse_lrc("[00:20.00]B\n[00:10.00]A\nsin marca\n[00:30.00]C");
    assert_eq!(lines.len(), 3);
    assert_eq!(lines[0].text, "A");
    assert_eq!(lines[1].text, "B");
    for w in lines.windows(2) {
        assert_eq!(w[0].end_ms, w[1].start_ms);
        assert!(w[0].start_ms <= w[1].start_ms);
    }
    assert_eq!(lines[2].end_ms, lines[2].start_ms + 5_000);
}

#[test]
fn una_marca_ilegible_no_cuenta() {
    assert_eq!(parse_stamp("ab:cd"), None);
    assert!(stamp_is_parsable("00:05.123"));
    assert!(lrc_is_parsable("[00:01.00]x"));
}

#[test]
fn prefiere_la_letra_sincronizada() {
    let plana = LrclibTrack { synced_lyrics: None, plain_lyrics: Some("solo texto".into()) };
    let sincronizada =
        LrclibTrack { synced_lyrics: Some("[00:01.00]hola".into()), plain_lyrics: Some("hola".into()) };
    let elegida = best_of(vec![plana, sincronizada], "lrclib").unwrap();
    assert!(elegida.synced);
    assert_eq!(elegida.lines.len(), 1);
    assert_eq!(elegida.source, "lrclib");
}

#[test]
fn sin_letra_no_hay_nada() {
    let vacia = LrclibTrack { synced_lyrics: None, plain_lyrics: None };
    assert!(build(vacia, "lrclib").is_none());
    assert!(pick(Vec::new()).is_none());
}

#[test]
fn entre_varias_sincronizadas_gana_la_primera() {
    let vacia = LrclibTrack { synced_lyrics: None, plain_lyrics: Some("   ".into()) };
    let plana = LrclibTrack { synced_lyrics: None, plain_lyrics: Some("solo texto".into()) };
    let a = LrclibTrack { synced_lyrics: Some("[00:01.00]uno".into()), plain_lyrics: None };
    let b = LrclibTrack { synced_lyrics: Some("[00:02.00]dos".into()), plain_lyrics: None };
    let elegida = best_of(vec![vacia, plana, a, b], "lrclib").unwrap();
    assert_eq!(elegida.lines[0].text, "uno");
    let vacia = LrclibTrack { synced_lyrics: None, plain_lyrics: Some("   ".into()) };
    let plana = LrclibTrack { synced_lyrics: None, plain_lyrics: Some("solo texto".into()) };
    let elegida = best_of(vec![vacia, plana], "lrclib").unwrap();
    assert!(!elegida.synced);
    assert_eq!(elegida.plain.as_deref(), Some("solo texto"));
    let vacia = LrclibTrack { synced_lyrics: None, plain_lyrics: None };
    assert!(best_of(vec![vacia], "lrclib").is_none());
}
