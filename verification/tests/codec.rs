use posible::minter::{mint_verdict, navigation_capture, percent_decode, watch_url, MintFailure, Origin};
use posible::thumbs::{self, cache_file_name, check_host, fetch_step, fnv1a64, query_url, sniff_mime, FetchStep, HostRefusal};

#[test]
fn decodifica_el_porcentaje() {
    assert_eq!(
        percent_decode("https%3A%2F%2Fa.com%2Fb%3Fc%3D1%26d%3D2"),
        "https://a.com/b?c=1&d=2"
    );
}

#[test]
fn deja_intacto_lo_que_no_esta_codificado() {
    assert_eq!(percent_decode("https://a.com/b"), "https://a.com/b");
}

#[test]
fn tolera_un_porcentaje_suelto_al_final() {
    assert_eq!(percent_decode("abc%"), "abc%");
    assert_eq!(percent_decode("abc%z"), "abc%z");
}

#[test]
fn el_hash_es_estable() {
    assert_eq!(fnv1a64(b""), 0xcbf2_9ce4_8422_2325);
    assert_eq!(fnv1a64(b"a"), 0xaf63_dc4c_8601_ec8c);
}

#[test]
fn detecta_el_tipo_de_imagen() {
    assert_eq!(sniff_mime(&[0xFF, 0xD8, 0xFF]), "image/jpeg");
    assert_eq!(sniff_mime(b"\x89PNG\r\n"), "image/png");
    assert_eq!(sniff_mime(b"RIFF\0\0\0\0WEBPVP8 "), "image/webp");
}

#[test]
fn decodifica_la_url() {
    assert_eq!(
        thumbs::percent_decode("https%3A%2F%2Fa.com%2Fx%3D1%26y%3D2"),
        "https://a.com/x=1&y=2"
    );
}

#[test]
fn en_la_miniatura_el_mas_es_un_espacio() {
    assert_eq!(thumbs::percent_decode("a+b%2Bc"), "a b+c");
    assert_eq!(percent_decode("a+b"), "a+b", "el acunador no usa +");
    assert!(thumbs::decodable("%41bc"));
    assert!(!thumbs::decodable("%4\u{e9}x"));
}

#[test]
fn un_tipo_desconocido_es_binario() {
    assert_eq!(sniff_mime(b"GIF89a"), "application/octet-stream");
    assert_eq!(sniff_mime(b"RIFF\0\0\0\0WEBP"), "application/octet-stream", "hace falta mas de 12 bytes");
}

#[test]
fn la_cache_se_nombra_por_el_hash() {
    assert_eq!(cache_file_name(""), "cbf29ce484222325.img");
    assert_eq!(cache_file_name("a"), "af63dc4c8601ec8c.img");
}

#[test]
fn solo_se_sirven_hosts_conocidos() {
    assert_eq!(check_host("https://i.ytimg.com/vi/x/hq.jpg"), Ok("i.ytimg.com".to_string()));
    assert_eq!(check_host("http://i.ytimg.com/x"), Err(HostRefusal::NoHost));
    assert_eq!(
        check_host("https://evil.example/x"),
        Err(HostRefusal::NotAllowed("evil.example".to_string()))
    );
}

#[test]
fn la_peticion_lleva_la_url_en_u() {
    assert_eq!(query_url("a=1&u=https%3A%2F%2Fx&u=otra"), Some("https%3A%2F%2Fx".to_string()));
    assert_eq!(query_url("a=1"), None);
}

#[test]
fn reintenta_con_espera_creciente() {
    assert_eq!(fetch_step(0, Some(200)), FetchStep::Keep);
    assert_eq!(fetch_step(0, Some(429)), FetchStep::Wait(300));
    assert_eq!(fetch_step(1, Some(503)), FetchStep::Wait(600));
    assert_eq!(fetch_step(2, None), FetchStep::Wait(1200));
    assert_eq!(fetch_step(0, Some(404)), FetchStep::Fail);
}

#[test]
fn el_acunador_abre_la_pagina_y_recoge_la_url() {
    assert_eq!(watch_url(Origin::Music, "abc"), "https://music.youtube.com/watch?v=abc");
    assert_eq!(watch_url(Origin::Watch, "abc"), "https://www.youtube.com/watch?v=abc");
    assert_eq!(navigation_capture("ytmint://https%3A%2F%2Fx"), Some("https://x".to_string()));
    assert_eq!(navigation_capture("https://music.youtube.com/"), None);
}

#[test]
fn solo_vale_una_url_de_googlevideo() {
    assert_eq!(mint_verdict(None), Err(MintFailure::TimedOut));
    assert_eq!(mint_verdict(Some(None)), Err(MintFailure::Closed));
    assert_eq!(mint_verdict(Some(Some("https://x.com".into()))), Err(MintFailure::NotGooglevideo));
    assert_eq!(
        mint_verdict(Some(Some("https://r1.googlevideo.com/videoplayback".into()))),
        Ok("https://r1.googlevideo.com/videoplayback".to_string())
    );
}

/// `encodeURIComponent` as the page script applies it.
fn uri_component(s: &str) -> String {
    let mut out = String::new();
    for b in s.bytes() {
        if b.is_ascii_alphanumeric() || b"-_.!~*'()".contains(&b) {
            out.push(b as char);
        } else {
            out.push_str(&format!("%{:02X}", b));
        }
    }
    out
}

#[test]
fn decodificar_deshace_encode_uri_component() {
    for s in ["año & más/?", "https://r1.googlevideo.com/videoplayback?id=x&n=1", "100% (live) ~ ¡olé! 🎵", ""] {
        assert_eq!(percent_decode(&uri_component(s)), s);
    }
    assert_eq!(uri_component("año &"), "a%C3%B1o%20%26");
}
