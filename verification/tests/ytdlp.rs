use posible::ytdlp::{
    clasificar, is_audio_of, is_marker_of, ok_marker, parse_info, stderr_tail, track_ext, Info, Motivo, YtDlp,
};

#[test]
fn reconoce_lo_que_no_se_puede_arreglar() {
    for tail in [
        "ERROR: [youtube] GiW1e6CCLas: Video unavailable",
        "ERROR: [youtube] abc: Private video. Sign in if you've been granted access",
        "ERROR: [youtube] abc: This video has been removed by the uploader",
        "ERROR: [youtube] abc: The uploader has not made this video available in your country",
    ] {
        assert_eq!(clasificar(tail), Motivo::NoDisponible, "{tail}");
    }
}

#[test]
fn un_fallo_de_red_merece_un_segundo_intento() {
    for tail in [
        "ERROR: unable to download video data: HTTP Error 403: Forbidden",
        "ERROR: [youtube] abc: Unable to extract player response",
        "ERROR: unable to open for writing",
        "",
    ] {
        assert_eq!(clasificar(tail), Motivo::Extraccion, "{tail}");
    }
}

#[test]
fn lee_la_linea_del_print() {
    let line = "/tmp/c/abc.M4A\u{1f}3456789.0\u{1f}m4a\u{1f}mp4a.40.2\u{1f}Titulo\u{1f}NA\u{1f}213.5\u{1f} ";
    let info = parse_info(line).unwrap();
    assert_eq!(info.path, "/tmp/c/abc.M4A");
    assert_eq!(info.ext, "m4a", "la extension de la ruta, en minusculas");
    assert_eq!(info.size.as_deref(), Some("3456789.0"));
    assert_eq!(info.acodec.as_deref(), Some("mp4a.40.2"));
    assert_eq!(info.title.as_deref(), Some("Titulo"));
    assert_eq!(info.author, None, "NA es que no lo sabe");
    assert_eq!(info.duration.as_deref(), Some("213.5"));
    assert_eq!(info.thumbnail, None, "vacio es que no hay");
    assert!(parse_info("\u{1f}x").is_none(), "sin ruta no hay pista");
}

#[test]
fn sin_extension_manda_la_declarada() {
    let info = parse_info("/tmp/c/abc\u{1f}\u{1f}WEBM").unwrap();
    assert_eq!(info.ext, "webm");
    let info = parse_info("/tmp/c/abc").unwrap();
    assert_eq!(info.ext, "m4a");
}

#[test]
fn el_tipo_sale_de_la_extension() {
    let mut info = Info {
        path: "x".into(),
        size: None,
        ext: "webm".into(),
        acodec: None,
        title: None,
        author: None,
        duration_ms: None,
        thumbnail: None,
    };
    assert_eq!(info.mime().as_deref(), Some("audio/webm"));
    info.ext = "flac".into();
    assert_eq!(info.mime(), None);
}

#[test]
fn nombres_de_la_cache() {
    assert_eq!(ok_marker("/c/abc.m4a"), "/c/abc.m4a.ok");
    assert!(is_marker_of("abc.m4a.ok", "abc"));
    assert!(!is_marker_of("abc.m4a", "abc"));
    assert!(is_audio_of("abc.webm", "abc"));
    assert!(!is_audio_of("abcd.webm", "abc"));
}

#[test]
fn del_error_quedan_las_tres_ultimas_lineas() {
    assert_eq!(stderr_tail("a\nb\nc\nd\n"), "d | c | b");
    assert_eq!(stderr_tail(""), "");
}

#[test]
fn describe_como_se_invoca() {
    let y = YtDlp::new("python".into(), vec!["-m".into(), "yt_dlp".into()], "2025.01".into());
    assert_eq!(y.describe(), "python -m yt_dlp");
    let y = YtDlp::new("yt-dlp".into(), Vec::new(), "2025.01".into());
    assert_eq!(y.describe(), "yt-dlp");
}

#[test]
fn la_extension_sale_de_la_ruta() {
    assert_eq!(track_ext("/c/abc.webm", Some("m4a".into())), "webm");
    assert_eq!(track_ext("/c/abc.OPUS", None), "opus");
    assert_eq!(track_ext("/c/a.b/abc", Some("WebM".into())), "webm");
    assert_eq!(track_ext("/c/.oculto", None), "m4a");
    assert_eq!(track_ext("/c/abc.tar.gz", None), "gz");
    let info = parse_info("/c/abc.webm\u{1F}3500000\u{1F}m4a\u{1F}opus").unwrap();
    assert_eq!(info.ext, "webm");
}
