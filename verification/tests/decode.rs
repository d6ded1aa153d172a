use posible::audio::{falta_el_titulo, Track, SIN_AUTOR, SIN_TITULO};
use posible::decode::extension_for;
use posible::model::TrackInfo;

#[test]
fn el_mime_manda_sobre_el_codec() {
    assert_eq!(
        extension_for(140, Some("audio/webm; codecs=opus"), Some("mp4a.40.2")),
        "webm"
    );
}

#[test]
fn deduce_la_extension_por_codec_si_no_hay_mime() {
    assert_eq!(extension_for(0, None, Some("opus")), "webm");
    assert_eq!(extension_for(0, None, Some("mp4a.40.2")), "m4a");
}

#[test]
fn deduce_la_extension_por_itag_como_ultimo_recurso() {
    assert_eq!(extension_for(251, None, None), "webm");
    assert_eq!(extension_for(140, None, None), "m4a");
}

#[test]
fn un_mime_mp4_es_m4a() {
    assert_eq!(extension_for(251, Some("audio/mp4"), Some("opus")), "m4a");
    assert_eq!(extension_for(250, Some("audio/ogg"), None), "webm");
}

#[test]
fn el_relleno_se_reconoce() {
    assert!(falta_el_titulo(""));
    assert!(falta_el_titulo(SIN_TITULO));
    assert!(!falta_el_titulo("Una cancion"));
}

#[test]
fn una_pista_sin_datos_lleva_el_relleno() {
    let info = TrackInfo::bare("abcdefghijk".into());
    let t = Track::from_info(&info);
    assert_eq!(t.title, SIN_TITULO);
    assert_eq!(t.author, SIN_AUTOR);
    assert_eq!(t.video_id, "abcdefghijk");
}
