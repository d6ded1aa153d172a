use posible::json::Json;
use posible::links::{flag_value, param, parse_input, parse_video_id, radio_id, Input};
use posible::playlist::{browse_id_for, next_token, header_title, PlaylistFetch, NextPage};

#[test]
fn un_enlace_con_list_es_playlist_aunque_lleve_v() {
    assert_eq!(
        parse_input("https://music.youtube.com/watch?v=abcdefghijk&list=PLxx11--_yy22"),
        Input::Playlist("PLxx11--_yy22".into())
    );
}

#[test]
fn un_enlace_de_video_suelto_es_video() {
    assert_eq!(
        parse_input("https://www.youtube.com/watch?v=jig2aRZbHm4"),
        Input::Video("jig2aRZbHm4".into())
    );
    assert_eq!(
        parse_input("https://youtu.be/jig2aRZbHm4?si=xyz"),
        Input::Video("jig2aRZbHm4".into())
    );
}

#[test]
fn ver_mas_tarde_no_se_trata_como_playlist() {
    assert_eq!(
        parse_input("https://www.youtube.com/watch?v=jig2aRZbHm4&list=WL"),
        Input::Video("jig2aRZbHm4".into())
    );
}

#[test]
fn un_id_de_playlist_pegado_a_pelo_cuenta() {
    assert_eq!(
        parse_input("PLS5XXQa2IUO8GaqdYq7Aeh8KH4op2r1Ud"),
        Input::Playlist("PLS5XXQa2IUO8GaqdYq7Aeh8KH4op2r1Ud".into())
    );
}

#[test]
fn el_texto_normal_sigue_siendo_busqueda() {
    assert_eq!(parse_input("lonely miku hardstyle"), Input::Query("lonely miku hardstyle".into()));
    assert_eq!(parse_input("PLaylist de fiesta"), Input::Query("PLaylist de fiesta".into()));
}

#[test]
fn la_radio_de_una_pista_lleva_su_id() {
    assert_eq!(radio_id("dQw4w9WgXcQ"), "RDAMVMdQw4w9WgXcQ");
}

#[test]
fn la_entrada_se_recorta() {
    assert_eq!(parse_input("  hola  "), Input::Query("hola".into()));
}

#[test]
fn lee_parametros_de_una_url() {
    let url = "https://r1.googlevideo.com/videoplayback?itag=251&clen=3448192&mime=audio%2Fwebm";
    assert_eq!(param(url, "itag").as_deref(), Some("251"));
    assert_eq!(param(url, "clen").as_deref(), Some("3448192"));
    assert_eq!(param(url, "range"), None);
}

#[test]
fn acepta_ids_y_enlaces_de_video() {
    assert_eq!(parse_video_id("dQw4w9WgXcQ"), "dQw4w9WgXcQ");
    assert_eq!(parse_video_id("https://www.youtube.com/watch?v=dQw4w9WgXcQ&t=3"), "dQw4w9WgXcQ");
    assert_eq!(parse_video_id("https://youtube.com/shorts/abcdefghijk?x"), "abcdefghijk");
}

#[test]
fn lee_el_valor_de_una_opcion() {
    let args: Vec<String> = ["play", "id", "--client", "ios"].iter().map(|s| s.to_string()).collect();
    assert_eq!(flag_value(&args, "--client").as_deref(), Some("ios"));
    assert_eq!(flag_value(&args, "--keep"), None);
    let corto: Vec<String> = ["play", "--client"].iter().map(|s| s.to_string()).collect();
    assert_eq!(flag_value(&corto, "--client"), None);
}

#[test]
fn el_id_de_browse_lleva_vl() {
    assert_eq!(browse_id_for("PL123"), "VLPL123");
    assert_eq!(browse_id_for("VLPL123"), "VLPL123");
}

#[test]
fn una_pagina_vacia_no_sigue() {
    let mut f = PlaylistFetch::new();
    let vacia = Json::Obj(Vec::new());
    assert!(matches!(f.take_page(&vacia), NextPage::Done));
    assert!(next_token(&vacia).is_none());
    assert!(header_title(&vacia).is_none());
    assert!(f.finish().is_err(), "sin pistas la playlist es un error");
}

#[test]
fn lo_pegado_se_lee_sin_espacios_alrededor() {
    for s in ["https://youtu.be/jig2aRZbHm4", "  lo-fi beats ", "https://music.youtube.com/playlist?list=PLxx"] {
        let padded = format!(" \t{}\n ", s);
        assert_eq!(parse_input(&padded), parse_input(s));
        assert_eq!(parse_input(s.trim()), parse_input(s));
    }
}
