use posible::clients::{all, by_id, is_music, player_endpoint, preferred, web_remix};
use posible::engine::{duration_choice, external_meta, itag_choice, pending, tick, url_source};
use posible::host::{
    Presence, PresenceStep, RECONNECT_MS,
    client_health, fmt_ms, limite_cache, normalize_setting, playlist_name_ok, presence_end, presence_key,
    repaired_meta, repeat_from_name, truncate, video_id_arg, MissingVideoId, emit_step, try_mint,
};
use posible::ytdlp::Motivo;
use posible::model::{Format, PlayabilityStatus, PlayerResponse, StreamingData, Thumbnail, Thumbnails, VideoDetails};
use posible::queue::Repeat;
use posible::resolve::{forced_stream, judge_player, Rejection};
use posible::search::Filter;
use posible::select::{best_audio, best_audio_with};
use posible::store::{history_takes, saved_from};
use posible::update::{claim_download, progress};

fn formato(itag: u32, mime: &str, url: bool, bitrate: Option<u64>) -> Format {
    Format {
        itag,
        url: if url { Some(format!("https://x/{itag}")) } else { None },
        signature_cipher: None,
        mime_type: Some(mime.to_string()),
        bitrate,
        average_bitrate: None,
        content_length: Some("3448192".into()),
        approx_duration_ms: Some("213000".into()),
        audio_quality: None,
        audio_sample_rate: None,
        audio_channels: None,
    }
}

#[test]
fn el_mejor_audio_sigue_la_preferencia() {
    let fs = vec![
        formato(251, "audio/webm; codecs=\"opus\"", true, Some(160_000)),
        formato(140, "audio/mp4; codecs=\"mp4a.40.2\"", true, Some(128_000)),
        formato(137, "video/mp4", true, Some(4_000_000)),
    ];
    assert_eq!(best_audio(&fs).unwrap().itag, 140);
    assert_eq!(fs[1].codec().as_deref(), Some("mp4a.40.2"));
    assert_eq!(fs[0].content_length_bytes(), Some(3_448_192));
}

#[test]
fn sin_itag_conocido_gana_el_mayor_bitrate() {
    let fs = vec![
        formato(1, "audio/webm", true, Some(50)),
        formato(2, "audio/webm", true, Some(90)),
        formato(3, "audio/webm", true, Some(90)),
        formato(4, "audio/webm", false, Some(999)),
    ];
    assert_eq!(best_audio_with(&fs, &[140]).unwrap().itag, 3, "entre iguales, la ultima");
    let cifradas = vec![formato(140, "audio/mp4", false, None)];
    assert!(best_audio(&cifradas).is_none());
}

fn respuesta(status: Option<&str>, formats: Option<Vec<Format>>) -> PlayerResponse {
    PlayerResponse {
        playability_status: status.map(|s| PlayabilityStatus { status: Some(s.into()), reason: Some("motivo".into()) }),
        streaming_data: formats.map(|f| StreamingData { expires_in_seconds: None, formats: Vec::new(), adaptive_formats: f }),
        video_details: Some(VideoDetails {
            video_id: None,
            title: Some("Titulo".into()),
            author: Some("Autor".into()),
            length_seconds: None,
            thumbnail: Some(Thumbnails {
                thumbnails: vec![
                    Thumbnail { url: "https://p".into(), width: None, height: None },
                    Thumbnail { url: "https://g".into(), width: None, height: None },
                ],
            }),
        }),
    }
}

#[test]
fn un_cliente_se_descarta_con_motivo() {
    match judge_player(&respuesta(Some("LOGIN_REQUIRED"), None), "abc", "ios") {
        Err(Rejection::NotPlayable { status, reason }) => {
            assert_eq!(status, "LOGIN_REQUIRED");
            assert_eq!(reason.as_deref(), Some("motivo"));
        }
        _ => panic!("deberia rechazarse"),
    }
    assert!(matches!(judge_player(&respuesta(Some("OK"), None), "abc", "ios"), Err(Rejection::NoStreamingData)));
    assert!(matches!(
        judge_player(&respuesta(None, Some(vec![formato(140, "audio/mp4", false, None)])), "abc", "ios"),
        Err(Rejection::NoDirectAudio)
    ));
}

#[test]
fn un_cliente_bueno_da_pista_y_stream() {
    let fs = vec![formato(140, "audio/mp4; codecs=\"mp4a.40.2\"", true, None)];
    let r = judge_player(&respuesta(Some("OK"), Some(fs)), "abc", "ios").unwrap();
    assert_eq!(r.track.video_id, "abc");
    assert_eq!(r.track.title.as_deref(), Some("Titulo"));
    assert_eq!(r.track.thumbnail.as_deref(), Some("https://g"));
    assert_eq!(r.audio.itag, 140);
    assert_eq!(r.audio.url, "https://x/140");
    assert_eq!(r.audio.duration_ms, Some(213_000));
    assert_eq!(r.audio.via_client, "ios");
}

#[test]
fn un_cliente_forzado_no_mira_el_estado() {
    let fs = vec![formato(140, "audio/mp4; codecs=\"mp4a.40.2\"", true, None)];
    let res = respuesta(Some("UNPLAYABLE"), Some(fs));
    assert!(matches!(judge_player(&res, "abc", "tv"), Err(Rejection::NotPlayable { .. })));
    let r = forced_stream(&res, "abc", "tv").unwrap();
    assert_eq!(r.audio.itag, 140);
    assert_eq!(r.track.title.as_deref(), Some("Titulo"));
    assert_eq!(r.track.thumbnail, None, "el camino forzado no trae miniatura");
    assert!(matches!(forced_stream(&respuesta(None, None), "abc", "tv"), Err(Rejection::NoStreamingData)));
}

#[test]
fn la_salud_de_un_cliente() {
    let fs = vec![
        formato(140, "audio/mp4; codecs=\"mp4a.40.2\"", true, Some(128_000)),
        formato(251, "audio/webm", false, None),
        formato(137, "video/mp4", true, None),
    ];
    let h = client_health(&respuesta(Some("OK"), Some(fs)));
    assert_eq!(h.status, "OK");
    assert_eq!((h.audio, h.direct_audio), (2, 1));
    assert_eq!(h.best, Some((140, Some("mp4a.40.2".to_string()), 128)));
    let h = client_health(&respuesta(None, None));
    assert_eq!(h.status, "SIN_ESTADO");
}

#[test]
fn la_tabla_de_clientes() {
    assert_eq!(by_id("tv").unwrap().client_name, "TVHTML5");
    assert!(by_id("nadie").is_none());
    assert_eq!(all().len(), 6);
    assert_eq!(preferred()[0].id, "ios");
    assert!(is_music(&web_remix()));
    assert_eq!(player_endpoint(&web_remix()).1, "https://music.youtube.com");
    assert_eq!(player_endpoint(&by_id("ios").unwrap()).1, "https://www.youtube.com");
}

#[test]
fn los_filtros_de_busqueda() {
    assert_eq!(Filter::All.params(), None);
    assert_eq!(Filter::Songs.params(), Some("EgWKAQIIAWoKEAkQBRAKEAMQBA%3D%3D"));
}

#[test]
fn ajustes_guardados() {
    assert_eq!(repeat_from_name("all"), Repeat::All);
    assert_eq!(repeat_from_name("one"), Repeat::One);
    assert_eq!(repeat_from_name("otro"), Repeat::Off);
    assert_eq!(limite_cache(Some("1024")), 1024);
    assert_eq!(limite_cache(Some("x")), 3 * 1024 * 1024 * 1024);
    assert_eq!(limite_cache(None), 3 * 1024 * 1024 * 1024);
    assert!(normalize_setting(None));
    assert!(!normalize_setting(Some("false")));
    assert!(!playlist_name_ok("   "));
    assert!(playlist_name_ok(" x "));
}

#[test]
fn reparar_solo_con_titulo() {
    assert_eq!(repaired_meta(Some("".into()), None), None);
    assert_eq!(repaired_meta(None, Some("a".into())), None);
    assert_eq!(repaired_meta(Some("t".into()), None), Some(("t".into(), "Desconocido".into())));
}

#[test]
fn presencia_en_discord() {
    assert_eq!(presence_key(Some("abc"), true, 12_345), "abc|true|2");
    assert_eq!(presence_key(None, false, 0), "|false|0");
    assert_eq!(presence_end(1_000, true, 200_000, 50_000), Some(1_150));
    assert_eq!(presence_end(1_000, false, 200_000, 50_000), None);
    assert_eq!(presence_end(i64::MAX - 1, true, 1_999, 0), Some(i64::MAX));
    assert_eq!(presence_end(i64::MAX, false, u64::MAX, 0), None);
    assert_eq!(truncate("corto", 128), "corto");
    assert_eq!(truncate("abcdef", 4), "abc\u{2026}");
    assert_eq!(truncate("\u{e9}\u{e9}\u{e9}", 4), "\u{e9}\u{e9}\u{2026}", "no parte un caracter");
}

#[test]
fn el_reloj_y_los_argumentos() {
    assert_eq!(fmt_ms(0), "0:00");
    assert_eq!(fmt_ms(213_500), "3:33");
    assert_eq!(fmt_ms(3_600_000), "60:00");
    let args: Vec<String> = vec!["play".into(), "https://youtu.be/abcdefghijk".into()];
    assert_eq!(video_id_arg(&args), Ok("abcdefghijk".to_string()));
    assert_eq!(video_id_arg(&args[..1]), Err(MissingVideoId));
}

#[test]
fn la_biblioteca_local() {
    assert!(!history_takes(Some("a"), "a"));
    assert!(history_takes(Some("a"), "b"));
    assert!(history_takes(None, "a"));
    let t = saved_from("a".into(), None, Some("b".into()), None);
    assert_eq!((t.title.as_str(), t.author.as_str(), t.at), ("Sin titulo", "b", 0));
}

#[test]
fn el_progreso_solo_se_avisa_al_cambiar() {
    assert_eq!(progress(0, 10, Some(100), u8::MAX), (10, Some(10)));
    assert_eq!(progress(10, 0, Some(100), 10), (10, None));
    assert_eq!(progress(0, 200, Some(100), 10), (200, Some(100)));
    assert_eq!(progress(0, 10, None, 0), (10, None));
    assert_eq!(progress(0, 10, Some(0), 0), (10, None));
}

#[test]
fn lo_que_dice_una_url_del_proveedor() {
    let u = url_source("https://x/v?itag=251&mime=audio%2Fwebm&clen=99", None, None);
    assert_eq!(u.itag, 251);
    assert_eq!(u.mime.as_deref(), Some("audio/webm"));
    assert_eq!(u.size, Some(99));
    let u = url_source("https://x/v?itag=abc", Some(5), Some("audio/mp4".into()));
    assert_eq!((u.itag, u.mime.as_deref(), u.size), (0, Some("audio/mp4"), Some(5)));
    assert_eq!(itag_choice(0, Some(140)), 140);
    assert_eq!(itag_choice(251, Some(140)), 251);
    assert_eq!(duration_choice(None, Some(5)), 5);
    assert_eq!(duration_choice(None, None), 0);
    assert!(external_meta("a", None, None, None, None).is_none());
}

#[test]
fn que_falta_por_precargar() {
    let ids: Vec<String> = vec!["a".into(), "b".into(), "c".into()];
    let listas: Vec<String> = vec!["b".into()];
    let en_curso: Vec<String> = vec!["c".into()];
    assert_eq!(pending(&ids, &listas, &en_curso), vec!["a".to_string()]);
}

#[test]
fn lo_que_ve_un_tic() {
    let t = tick(true, Some("red".into()), 0, false, false, false);
    assert_eq!(t.fail.as_deref(), Some("red"));
    let t = tick(true, Some("red".into()), 10, false, true, false);
    assert!(t.fail.is_none() && t.warn_partial && t.ended);
    let t = tick(false, None, 0, false, true, false);
    assert!(!t.ended);
    let t = tick(true, None, 10, false, true, true);
    assert!(!t.ended, "en pausa no ha acabado");
}

#[test]
fn discord_solo_se_entera_de_lo_que_cambia() {
    let mut p = Presence::new();
    assert_eq!(p.on_change("a|true|0".into(), 1_000), PresenceStep::Connect, "el primer intento es inmediato");
    p.connected(false);
    assert_eq!(p.on_change("a|true|1".into(), 2_000), PresenceStep::Skip, "demasiado pronto para reintentar");
    assert_eq!(p.on_change("a|true|2".into(), 1_000 + RECONNECT_MS), PresenceStep::Connect);
    p.connected(true);
    assert_eq!(p.on_change("a|true|3".into(), 40_000), PresenceStep::Send);
    assert_eq!(p.on_change("a|true|3".into(), 41_000), PresenceStep::Skip, "nada visible cambio");
    p.sent(false, 42_000);
    assert_eq!(p.on_change("a|false|3".into(), 43_000), PresenceStep::Skip, "Discord se fue: se espera");
    assert_eq!(p.on_change("b|true|0".into(), 42_000 + RECONNECT_MS), PresenceStep::Connect);
}

#[test]
fn el_acunador_solo_cuando_sirve() {
    assert!(try_mint(Some(Motivo::Extraccion), false));
    assert!(try_mint(None, false));
    assert!(!try_mint(Some(Motivo::NoDisponible), false));
    assert!(!try_mint(Some(Motivo::Extraccion), true));
    assert!(!try_mint(None, true));
}

#[test]
fn minimizada_solo_se_emiten_los_cambios() {
    // Visible: always emitted; the queue goes once per revision.
    assert_eq!(emit_step(false, false, false, 3, None), (true, true, Some(3)));
    assert_eq!(emit_step(false, false, false, 3, Some(3)), (true, false, Some(3)));
    assert_eq!(emit_step(false, false, false, 4, Some(3)), (true, true, Some(4)));
    // Minimized: only a change of track or of play state.
    assert_eq!(emit_step(true, false, false, 4, Some(3)), (false, false, Some(3)));
    assert_eq!(emit_step(true, true, false, 4, Some(3)), (true, true, Some(4)));
    assert_eq!(emit_step(true, false, true, 3, Some(3)), (true, false, Some(3)));
}

#[test]
fn una_sola_descarga_de_la_actualizacion() {
    assert_eq!(claim_download(false, false), (true, true));
    assert_eq!(claim_download(true, false), (false, false), "ya hay una lista");
    assert_eq!(claim_download(false, true), (false, true), "ya hay una en marcha");
    assert_eq!(claim_download(true, true), (false, true));
}
