use posible::browse::{parse_continued, parse_page, target, ItemKind};
use posible::json::Json;
use posible::radio::parse_radio;
use posible::playlist::{NextPage, PlaylistFetch};
use posible::search::parse_results;

fn s(x: &str) -> Json {
    Json::Str(x.to_string())
}

fn arr(v: Vec<Json>) -> Json {
    Json::Arr(v)
}

/// An object, its keys in sorted order as the parser of the host gives them.
fn obj(mut pairs: Vec<(&str, Json)>) -> Json {
    pairs.sort_by(|a, b| a.0.cmp(b.0));
    Json::Obj(pairs.into_iter().map(|(k, v)| (k.to_string(), v)).collect())
}

fn runs(t: &str) -> Json {
    obj(vec![("runs", arr(vec![obj(vec![("text", s(t))])]))])
}

fn thumbs(urls: &[&str]) -> Json {
    arr(urls.iter().map(|u| obj(vec![("url", s(u))])).collect())
}

fn flex(text: Json) -> Json {
    obj(vec![("musicResponsiveListItemFlexColumnRenderer", obj(vec![("text", text)]))])
}

// --------------------------------------------------------------- search

#[test]
fn encuentra_resultados_anidados_a_cualquier_profundidad() {
    let renderer = obj(vec![
        ("playlistItemData", obj(vec![("videoId", s("abcdefghijk"))])),
        (
            "flexColumns",
            arr(vec![flex(runs("Mi Cancion")), flex(runs("Artista \u{2022} Album \u{2022} 3:45"))]),
        ),
        (
            "thumbnail",
            obj(vec![(
                "musicThumbnailRenderer",
                obj(vec![(
                    "thumbnail",
                    obj(vec![("thumbnails", thumbs(&["https://ejemplo/pequena.jpg", "https://ejemplo/grande.jpg"]))]),
                )]),
            )]),
        ),
    ]);
    let payload = obj(vec![(
        "un",
        obj(vec![(
            "envoltorio",
            obj(vec![(
                "cualquiera",
                arr(vec![obj(vec![(
                    "y",
                    obj(vec![("otro", obj(vec![("musicResponsiveListItemRenderer", renderer)]))]),
                )])]),
            )]),
        )]),
    )]);

    let out = parse_results(&payload);
    assert_eq!(out.len(), 1);
    assert_eq!(out[0].video_id, "abcdefghijk");
    assert_eq!(out[0].title, "Mi Cancion");
    assert_eq!(out[0].duration.as_deref(), Some("3:45"));
    assert_eq!(out[0].subtitle, "Artista \u{2022} Album");
    assert_eq!(out[0].thumbnail.as_deref(), Some("https://ejemplo/grande.jpg"));
}

#[test]
fn descarta_entradas_sin_video_id() {
    let payload = obj(vec![(
        "musicResponsiveListItemRenderer",
        obj(vec![("flexColumns", arr(vec![flex(runs("Un Artista"))]))]),
    )]);
    assert!(parse_results(&payload).is_empty());
}

#[test]
fn deduplica() {
    let item = || {
        obj(vec![(
            "musicResponsiveListItemRenderer",
            obj(vec![
                ("playlistItemData", obj(vec![("videoId", s("abcdefghijk"))])),
                ("flexColumns", arr(vec![flex(runs("Repetida"))])),
            ]),
        )])
    };
    let payload = obj(vec![("a", item()), ("b", item())]);
    assert_eq!(parse_results(&payload).len(), 1);
}

// ---------------------------------------------------------------- radio

fn pista(id: &str, titulo: &str) -> Json {
    obj(vec![(
        "playlistPanelVideoRenderer",
        obj(vec![
            ("videoId", s(id)),
            ("title", runs(titulo)),
            ("shortBylineText", runs("Un Artista")),
            (
                "longBylineText",
                obj(vec![(
                    "runs",
                    arr(vec![
                        obj(vec![
                            ("text", s("Un Artista")),
                            (
                                "navigationEndpoint",
                                obj(vec![("browseEndpoint", obj(vec![("browseId", s("UCartista123"))]))]),
                            ),
                        ]),
                        obj(vec![("text", s(" \u{2022} "))]),
                        obj(vec![("text", s("3,7 M de visualizaciones"))]),
                    ]),
                )]),
            ),
            ("lengthText", runs("4:22")),
            (
                "thumbnail",
                obj(vec![("thumbnails", thumbs(&["https://ejemplo/pequena.jpg", "https://ejemplo/grande.jpg"]))]),
            ),
        ]),
    )])
}

#[test]
fn lee_la_cola_de_radio() {
    let payload = obj(vec![(
        "da",
        obj(vec![(
            "igual",
            obj(vec![(
                "lo",
                obj(vec![("hondo", arr(vec![pista("aaaaaaaaaaa", "Primera"), pista("bbbbbbbbbbb", "Segunda")]))]),
            )]),
        )]),
    )]);
    let radio = parse_radio(&payload);

    assert_eq!(radio.tracks.len(), 2);
    let t = &radio.tracks[0];
    assert_eq!(t.video_id, "aaaaaaaaaaa");
    assert_eq!(t.title, "Primera");
    assert_eq!(t.duration.as_deref(), Some("4:22"));
    assert_eq!(t.thumbnail.as_deref(), Some("https://ejemplo/grande.jpg"));
}

#[test]
fn saca_el_canal_del_artista_de_la_semilla() {
    let radio = parse_radio(&obj(vec![("x", arr(vec![pista("aaaaaaaaaaa", "Semilla")]))]));
    assert_eq!(radio.artist_browse_id.as_deref(), Some("UCartista123"));
}

#[test]
fn sin_canal_en_el_byline_no_se_inventa_uno() {
    let sin = obj(vec![(
        "playlistPanelVideoRenderer",
        obj(vec![("videoId", s("aaaaaaaaaaa")), ("title", runs("Suelta"))]),
    )]);
    assert!(parse_radio(&sin).artist_browse_id.is_none());
}

#[test]
fn el_subtitulo_es_solo_el_artista() {
    let radio = parse_radio(&obj(vec![("x", pista("aaaaaaaaaaa", "Una"))]));
    assert_eq!(radio.tracks[0].subtitle, "Un Artista");
}

#[test]
fn la_cola_no_repite_pistas() {
    let payload = obj(vec![("a", pista("aaaaaaaaaaa", "Repetida")), ("b", pista("aaaaaaaaaaa", "Repetida"))]);
    assert_eq!(parse_radio(&payload).tracks.len(), 1);
}

#[test]
fn descarta_entradas_sin_titulo() {
    let payload = obj(vec![("playlistPanelVideoRenderer", obj(vec![("videoId", s("aaaaaaaaaaa"))]))]);
    assert!(parse_radio(&payload).tracks.is_empty());
}

// --------------------------------------------------------------- browse

fn carrusel_con(titulo: &str, contenido: Json) -> Json {
    obj(vec![(
        "musicCarouselShelfRenderer",
        obj(vec![
            ("header", obj(vec![("musicCarouselShelfBasicHeaderRenderer", obj(vec![("title", runs(titulo))]))])),
            ("contents", contenido),
        ]),
    )])
}

fn tarjeta(titulo: &str, video_id: &str) -> Json {
    obj(vec![(
        "musicTwoRowItemRenderer",
        obj(vec![
            ("title", runs(titulo)),
            ("subtitle", runs("Cancion \u{2022} Un Artista")),
            (
                "thumbnailRenderer",
                obj(vec![(
                    "musicThumbnailRenderer",
                    obj(vec![(
                        "thumbnail",
                        obj(vec![("thumbnails", thumbs(&["https://ejemplo/pequena.jpg", "https://ejemplo/grande.jpg"]))]),
                    )]),
                )]),
            ),
            ("navigationEndpoint", obj(vec![("watchEndpoint", obj(vec![("videoId", s(video_id))]))])),
        ]),
    )])
}

fn fila(video_id: &str, columnas: Vec<Json>) -> Json {
    obj(vec![(
        "musicResponsiveListItemRenderer",
        obj(vec![
            ("playlistItemData", obj(vec![("videoId", s(video_id))])),
            ("flexColumns", arr(columnas)),
        ]),
    )])
}

fn titulos(page: &posible::browse::BrowsePage) -> Vec<&str> {
    page.shelves.iter().map(|s| s.title.as_str()).collect()
}

#[test]
fn lee_un_carrusel_de_tarjetas() {
    let page = parse_page(&obj(vec![(
        "da",
        obj(vec![(
            "igual",
            obj(vec![(
                "lo",
                obj(vec![(
                    "hondo",
                    arr(vec![carrusel_con("Volver a escuchar", arr(vec![tarjeta("Mi Cancion", "abcdefghijk")]))]),
                )]),
            )]),
        )]),
    )]));

    assert_eq!(page.shelves.len(), 1);
    assert_eq!(page.shelves[0].title, "Volver a escuchar");
    let item = &page.shelves[0].items[0];
    assert_eq!(item.kind, ItemKind::Track);
    assert_eq!(item.id, "abcdefghijk");
    assert_eq!(item.title, "Mi Cancion");
    assert_eq!(item.thumbnail.as_deref(), Some("https://ejemplo/grande.jpg"));
}

#[test]
fn conserva_el_orden_de_las_estanterias() {
    let page = parse_page(&obj(vec![(
        "contents",
        arr(vec![
            carrusel_con("Primera", arr(vec![tarjeta("A", "aaaaaaaaaaa")])),
            carrusel_con("Segunda", arr(vec![tarjeta("B", "bbbbbbbbbbb")])),
            carrusel_con("Tercera", arr(vec![tarjeta("C", "ccccccccccc")])),
        ]),
    )]));
    assert_eq!(titulos(&page), ["Primera", "Segunda", "Tercera"]);
}

#[test]
fn los_elementos_no_se_cuentan_ademas_como_estanterias() {
    let page = parse_page(&obj(vec![(
        "contents",
        arr(vec![carrusel_con("Unica", arr(vec![tarjeta("A", "aaaaaaaaaaa"), tarjeta("B", "bbbbbbbbbbb")]))]),
    )]));
    assert_eq!(page.shelves.len(), 1);
    assert_eq!(page.shelves[0].items.len(), 2);
}

#[test]
fn distingue_album_artista_y_playlist() {
    let destino = |page_type: &str, id: &str| {
        target(&obj(vec![(
            "browseEndpoint",
            obj(vec![
                ("browseId", s(id)),
                (
                    "browseEndpointContextSupportedConfigs",
                    obj(vec![("browseEndpointContextMusicConfig", obj(vec![("pageType", s(page_type))]))]),
                ),
            ]),
        )]))
    };

    assert_eq!(destino("MUSIC_PAGE_TYPE_ALBUM", "MPREb_x").unwrap().0, ItemKind::Album);
    assert_eq!(destino("MUSIC_PAGE_TYPE_ARTIST", "UCxxxx").unwrap().0, ItemKind::Artist);
    assert_eq!(destino("MUSIC_PAGE_TYPE_PLAYLIST", "VLPLxx").unwrap().0, ItemKind::Playlist);
}

#[test]
fn sin_page_type_se_deduce_del_prefijo_del_id() {
    let destino =
        |id: &str| target(&obj(vec![("browseEndpoint", obj(vec![("browseId", s(id))]))])).map(|t| t.0);

    assert_eq!(destino("MPREb_abc"), Some(ItemKind::Album));
    assert_eq!(destino("UC123"), Some(ItemKind::Artist));
    assert_eq!(destino("VLPL123"), Some(ItemKind::Playlist));
    assert_eq!(destino("FEmusic_algo_nuevo"), None);
}

#[test]
fn lee_una_lista_vertical_y_le_saca_la_duracion() {
    let page = parse_page(&obj(vec![(
        "musicShelfRenderer",
        obj(vec![
            ("title", runs("Canciones populares")),
            (
                "contents",
                arr(vec![fila("abcdefghijk", vec![flex(runs("Una Pista")), flex(runs("Artista \u{2022} 3:45"))])]),
            ),
        ]),
    )]));

    assert_eq!(page.shelves[0].title, "Canciones populares");
    let item = &page.shelves[0].items[0];
    assert_eq!(item.title, "Una Pista");
    assert_eq!(item.duration.as_deref(), Some("3:45"));
    assert_eq!(item.subtitle, "Artista");
}

#[test]
fn descarta_estanterias_vacias() {
    let page = parse_page(&obj(vec![(
        "contents",
        arr(vec![
            carrusel_con("Vacia", arr(vec![])),
            carrusel_con("Con algo", arr(vec![tarjeta("A", "aaaaaaaaaaa")])),
        ]),
    )]));
    assert_eq!(titulos(&page), ["Con algo"]);
}

#[test]
fn lee_la_cabecera_de_un_artista() {
    let page = parse_page(&obj(vec![(
        "header",
        obj(vec![(
            "musicImmersiveHeaderRenderer",
            obj(vec![
                ("title", runs("SABAI")),
                ("subtitle", runs("1,25 M de oyentes mensuales")),
                (
                    "thumbnail",
                    obj(vec![(
                        "musicThumbnailRenderer",
                        obj(vec![("thumbnail", obj(vec![("thumbnails", thumbs(&["https://ejemplo/artista.jpg"]))]))]),
                    )]),
                ),
            ]),
        )]),
    )]));

    assert_eq!(page.title.as_deref(), Some("SABAI"));
    assert_eq!(page.subtitle.as_deref(), Some("1,25 M de oyentes mensuales"));
    assert_eq!(page.thumbnail.as_deref(), Some("https://ejemplo/artista.jpg"));
}

fn endpoint(id: &str, page_type: &str) -> Json {
    obj(vec![(
        "browseEndpoint",
        obj(vec![
            ("browseId", s(id)),
            (
                "browseEndpointContextSupportedConfigs",
                obj(vec![("browseEndpointContextMusicConfig", obj(vec![("pageType", s(page_type))]))]),
            ),
        ]),
    )])
}

#[test]
fn una_fila_trae_el_enlace_a_su_artista() {
    let artista = endpoint("UClYV6hHlupm_S_ObS1W-DYw", "MUSIC_PAGE_TYPE_ARTIST");
    let album = endpoint("MPREb_despues", "MUSIC_PAGE_TYPE_ALBUM");
    let segunda = flex(obj(vec![(
        "runs",
        arr(vec![
            obj(vec![("text", s("The Weeknd")), ("navigationEndpoint", artista)]),
            obj(vec![("text", s(" - "))]),
            obj(vec![("text", s("After Hours")), ("navigationEndpoint", album)]),
        ]),
    )]));

    let page = parse_page(&obj(vec![(
        "musicShelfRenderer",
        obj(vec![("contents", arr(vec![fila("abcdefghijk", vec![flex(runs("Blinding Lights")), segunda])]))]),
    )]));

    let item = &page.shelves[0].items[0];
    assert_eq!(item.kind, ItemKind::Track, "sigue siendo una pista");
    assert_eq!(item.id, "abcdefghijk");
    assert_eq!(item.artist_id.as_deref(), Some("UClYV6hHlupm_S_ObS1W-DYw"));
    assert_eq!(item.album_id.as_deref(), Some("MPREb_despues"));
}

#[test]
fn una_fila_sin_enlaces_no_se_inventa_ninguno() {
    let page = parse_page(&obj(vec![(
        "musicShelfRenderer",
        obj(vec![("contents", arr(vec![fila("abcdefghijk", vec![flex(runs("Suelta"))])]))]),
    )]));
    let item = &page.shelves[0].items[0];
    assert!(item.artist_id.is_none() && item.album_id.is_none());
}

#[test]
fn los_filtros_del_inicio_no_son_los_del_buscador() {
    let page = parse_page(&obj(vec![(
        "chipCloudChipRenderer",
        obj(vec![
            ("text", runs("Energia")),
            (
                "navigationEndpoint",
                obj(vec![(
                    "browseEndpoint",
                    obj(vec![("browseId", s("FEmusic_home")), ("params", s("ggM8SgQICRAD"))]),
                )]),
            ),
        ]),
    )]));
    assert_eq!(page.chips.len(), 1);
    assert_eq!(page.chips[0].label, "Energia");
    assert_eq!(page.chips[0].params, "ggM8SgQICRAD");
}

#[test]
fn lee_las_pastillas_de_explorar() {
    let page = parse_page(&obj(vec![(
        "contents",
        arr(vec![
            obj(vec![(
                "musicNavigationButtonRenderer",
                obj(vec![
                    ("buttonText", runs("Novedades")),
                    ("clickCommand", obj(vec![("browseEndpoint", obj(vec![("browseId", s("FEmusic_new_releases"))]))])),
                    ("iconStyle", obj(vec![("icon", obj(vec![("iconType", s("MUSIC_NEW_RELEASE"))]))])),
                ]),
            )]),
            obj(vec![(
                "musicNavigationButtonRenderer",
                obj(vec![
                    ("buttonText", runs("Dormir")),
                    ("solid", obj(vec![("leftStripeColor", Json::Uint(4286267099u64))])),
                    (
                        "clickCommand",
                        obj(vec![(
                            "browseEndpoint",
                            obj(vec![
                                ("browseId", s("FEmusic_moods_and_genres_category")),
                                ("params", s("ggMPOg1uX1MxaFQ3Z0JMZkN4")),
                            ]),
                        )]),
                    ),
                ]),
            )]),
        ]),
    )]));

    assert_eq!(page.buttons.len(), 2);
    assert_eq!(page.buttons[0].label, "Novedades");
    assert_eq!(page.buttons[0].browse_id, "FEmusic_new_releases");
    assert!(page.buttons[0].stripe.is_none(), "las de arriba no llevan franja");

    let dormir = &page.buttons[1];
    assert_eq!(dormir.params.as_deref(), Some("ggMPOg1uX1MxaFQ3Z0JMZkN4"));
    assert_eq!(dormir.stripe.as_deref(), Some("#7b3edb"));
}

#[test]
fn un_boton_sin_destino_no_se_pinta() {
    let page = parse_page(&obj(vec![(
        "musicNavigationButtonRenderer",
        obj(vec![("buttonText", runs("Suelto"))]),
    )]));
    assert!(page.buttons.is_empty());
}

#[test]
fn una_lista_larga_deja_token_para_la_siguiente_tanda() {
    let page = parse_page(&obj(vec![(
        "musicPlaylistShelfRenderer",
        obj(vec![
            ("contents", arr(vec![fila("abcdefghijk", vec![flex(runs("Pista 100"))])])),
            (
                "continuations",
                arr(vec![obj(vec![("nextContinuationData", obj(vec![("continuation", s("SIGUE"))]))])]),
            ),
        ]),
    )]));
    assert_eq!(page.continuation.as_deref(), Some("SIGUE"));
}

fn mas(token: &str) -> Json {
    obj(vec![(
        "continuationItemRenderer",
        obj(vec![(
            "continuationEndpoint",
            obj(vec![("continuationCommand", obj(vec![("token", s(token))]))]),
        )]),
    )])
}

#[test]
fn la_segunda_tanda_llega_sin_estanteria() {
    let page = parse_continued(&obj(vec![(
        "onResponseReceivedActions",
        arr(vec![obj(vec![(
            "appendContinuationItemsAction",
            obj(vec![(
                "continuationItems",
                arr(vec![fila("bbbbbbbbbbb", vec![flex(runs("Pista 101"))]), mas("TANDA_3")]),
            )]),
        )])]),
    )]));

    assert_eq!(page.shelves.len(), 1);
    assert_eq!(page.shelves[0].items[0].title, "Pista 101");
    assert_eq!(page.continuation.as_deref(), Some("TANDA_3"));
}

#[test]
fn la_ultima_tanda_no_deja_token() {
    let page = parse_continued(&obj(vec![(
        "onResponseReceivedActions",
        arr(vec![obj(vec![(
            "appendContinuationItemsAction",
            obj(vec![("continuationItems", arr(vec![fila("ccccccccccc", vec![flex(runs("Pista 551"))])]))]),
        )])]),
    )]));
    assert_eq!(page.shelves[0].items.len(), 1);
    assert!(page.continuation.is_none());
}

#[test]
fn el_inicio_usa_el_token_de_la_pagina_para_pedir_mas_estanterias() {
    let page = parse_page(&obj(vec![
        ("contents", arr(vec![carrusel_con("Con algo", arr(vec![tarjeta("A", "aaaaaaaaaaa")]))])),
        (
            "continuations",
            arr(vec![obj(vec![("nextContinuationData", obj(vec![("continuation", s("MAS_FILAS"))]))])]),
        ),
    ]));
    assert_eq!(page.continuation.as_deref(), Some("MAS_FILAS"));
}

#[test]
fn en_una_lista_larga_manda_el_token_de_las_pistas() {
    let page = parse_page(&obj(vec![
        (
            "musicPlaylistShelfRenderer",
            obj(vec![("contents", arr(vec![fila("aaaaaaaaaaa", vec![flex(runs("Pista"))]), mas("MAS_PISTAS")]))]),
        ),
        (
            "continuations",
            arr(vec![obj(vec![("nextContinuationData", obj(vec![("continuation", s("MAS_SECCIONES"))]))])]),
        ),
    ]));
    assert_eq!(page.continuation.as_deref(), Some("MAS_PISTAS"));
}

#[test]
fn la_continuacion_del_inicio_llega_como_estanterias_con_nombre() {
    let page = parse_continued(&obj(vec![(
        "continuationContents",
        obj(vec![(
            "sectionListContinuation",
            obj(vec![(
                "contents",
                arr(vec![
                    carrusel_con("Sube el volumen", arr(vec![tarjeta("A", "aaaaaaaaaaa")])),
                    carrusel_con("Exitos de hoy", arr(vec![tarjeta("B", "bbbbbbbbbbb")])),
                ]),
            )]),
        )]),
    )]));
    assert_eq!(titulos(&page), ["Sube el volumen", "Exitos de hoy"]);
}

#[test]
fn una_pista_no_se_duplica_dentro_de_la_misma_estanteria() {
    let page = parse_page(&obj(vec![(
        "contents",
        arr(vec![carrusel_con("Repetida", arr(vec![tarjeta("A", "aaaaaaaaaaa"), tarjeta("A", "aaaaaaaaaaa")]))]),
    )]));
    assert_eq!(page.shelves[0].items.len(), 1);
}

// ------------------------------------------------------------- playlist

fn fila_de_lista(id: &str, titulo: &str) -> Json {
    obj(vec![(
        "musicResponsiveListItemRenderer",
        obj(vec![
            ("playlistItemData", obj(vec![("videoId", s(id))])),
            ("flexColumns", arr(vec![flex(runs(titulo))])),
        ]),
    )])
}

fn pagina_de_lista(filas: Vec<Json>, token: Option<&str>) -> Json {
    let mut pares = vec![("contents", arr(filas))];
    if let Some(t) = token {
        pares.push((
            "continuations",
            arr(vec![obj(vec![("continuationCommand", obj(vec![("token", s(t))]))])]),
        ));
    }
    obj(pares)
}

#[test]
fn una_lista_en_dos_paginas_no_repite_pistas() {
    let mut f = PlaylistFetch::new();
    let primera = pagina_de_lista(
        vec![fila_de_lista("aaaaaaaaaaa", "Uno"), fila_de_lista("bbbbbbbbbbb", "Dos")],
        Some("T1"),
    );
    match f.take_page(&primera) {
        NextPage::Fetch(t) => assert_eq!(t, "T1"),
        NextPage::Done => panic!("la primera pagina trae token"),
    }
    let segunda = pagina_de_lista(
        vec![fila_de_lista("bbbbbbbbbbb", "Dos"), fila_de_lista("ccccccccccc", "Tres")],
        None,
    );
    assert!(matches!(f.take_page(&segunda), NextPage::Done));
    let lista = f.finish().unwrap();
    let ids: Vec<&str> = lista.tracks.iter().map(|t| t.video_id.as_str()).collect();
    assert_eq!(ids, ["aaaaaaaaaaa", "bbbbbbbbbbb", "ccccccccccc"]);
}

#[test]
fn una_pagina_sin_pistas_nuevas_corta_la_lectura() {
    let mut f = PlaylistFetch::new();
    let pagina = pagina_de_lista(vec![fila_de_lista("aaaaaaaaaaa", "Uno")], Some("T"));
    assert!(matches!(f.take_page(&pagina), NextPage::Fetch(_)));
    // The same page again: nothing new, so no further page is asked for.
    assert!(matches!(f.take_page(&pagina), NextPage::Done));
    assert_eq!(f.finish().unwrap().tracks.len(), 1);
}
