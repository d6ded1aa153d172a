use posible::spike::{
    clen_of, complete, follow_goes_on, follow_step, follow_url, has_pot, head_hex, is_ump_head, is_webm_head,
    looks_like_url, probe_step, redirect_target, strip_params, FollowStep, PROBE_CHUNK,
};

#[test]
fn quita_los_parametros_pedidos_y_nada_mas() {
    let url = "https://r1.googlevideo.com/videoplayback?expire=1&ump=1&srfvp=1&alr=yes&clen=99";
    assert_eq!(strip_params(url, &[]), url);
    assert_eq!(
        strip_params(url, &["ump"]),
        "https://r1.googlevideo.com/videoplayback?expire=1&srfvp=1&alr=yes&clen=99"
    );
    assert_eq!(
        strip_params(url, &["ump", "srfvp", "alr"]),
        "https://r1.googlevideo.com/videoplayback?expire=1&clen=99"
    );
    // The last parameter goes up to the end.
    assert_eq!(strip_params(url, &["clen"]), "https://r1.googlevideo.com/videoplayback?expire=1&ump=1&srfvp=1&alr=yes");
}

#[test]
fn quita_todas_las_apariciones() {
    assert_eq!(strip_params("u?a=1&k=1&b=2&k=3", &["k"]), "u?a=1&b=2");
}

#[test]
fn la_cabecera_en_hexadecimal() {
    assert_eq!(head_hex(&[0x1a, 0x45, 0xdf, 0xa3, 0x00]), "1a45dfa3");
    assert_eq!(head_hex(&[0x3a, 0x0b]), "3a0b");
    assert_eq!(head_hex(&[]), "");
    assert!(is_webm_head(&head_hex(&[0x1a, 0x45, 0xdf, 0xa3])));
    assert!(is_ump_head("3a0b"));
    assert!(!is_ump_head("1a45dfa3"));
}

#[test]
fn reconoce_el_token_de_sesion() {
    assert!(has_pot("https://x/videoplayback?a=1&pot=XYZ"));
    assert!(has_pot("https://x/videoplayback?pot=XYZ"));
    assert!(!has_pot("https://x/videoplayback?a=1&spot=XYZ"));
}

#[test]
fn lee_el_tamano_declarado() {
    assert_eq!(clen_of("https://x/v?itag=251&clen=3448192&dur=1"), 3448192);
    assert_eq!(clen_of("https://x/v?itag=251&clen=3448192"), 3448192);
    assert_eq!(clen_of("https://x/v?itag=251"), 0);
    assert_eq!(clen_of("https://x/v?clen=abc&x=1"), 0);
}

#[test]
fn la_sonda_por_rangos_para_cuando_toca() {
    assert_eq!(probe_step(0, PROBE_CHUNK, 0), (PROBE_CHUNK, true));
    assert_eq!(probe_step(0, 10, 0), (10, false), "un trozo corto es el ultimo");
    assert_eq!(probe_step(0, 0, 0), (0, false));
    assert_eq!(probe_step(PROBE_CHUNK, PROBE_CHUNK, 2 * PROBE_CHUNK), (2 * PROBE_CHUNK, false));
    assert!(complete(100, 100));
    assert!(!complete(0, 100), "sin tamano conocido no se da por completa");
    assert!(!complete(100, 99));
}

#[test]
fn sigue_las_redirecciones_hasta_un_limite() {
    let url = b"https://r3.googlevideo.com/videoplayback?x=1";
    assert!(looks_like_url(url));
    assert_eq!(follow_step(0, 200, url), FollowStep::Redirect);
    assert_eq!(follow_step(11, 200, url), FollowStep::Redirect);
    assert_eq!(follow_step(12, 200, url), FollowStep::GiveUp);
    assert_eq!(follow_step(0, 403, b"\x00\x01"), FollowStep::Refused(403));
    assert_eq!(follow_step(0, 200, b""), FollowStep::Finished);
    assert_eq!(follow_step(0, 200, b"\x1a\x45"), FollowStep::Chunk(false));
    let whole = vec![0u8; PROBE_CHUNK as usize];
    assert_eq!(follow_step(0, 206, &whole), FollowStep::Chunk(true));
    assert!(follow_goes_on(0, 5_000_000));
    assert!(follow_goes_on(10, 5));
    assert!(!follow_goes_on(10, 10));
}

#[test]
fn la_redireccion_da_la_url_siguiente() {
    assert_eq!(
        redirect_target(b"https://r3.googlevideo.com/videoplayback?x=1\r\n"),
        "https://r3.googlevideo.com/videoplayback?x=1"
    );
    assert_eq!(redirect_target(b"  http://a/\xff "), "http://a/\u{FFFD}");
    assert_eq!(
        follow_url("https://h/v?id=1", 0, 3),
        "https://h/v?id=1&range=0-1048575&rn=3&rbuf=0&alr=yes"
    );
    assert_eq!(
        follow_url("b", 1_048_576, 0),
        "b&range=1048576-2097151&rn=0&rbuf=0&alr=yes"
    );
}
