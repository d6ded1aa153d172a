use posible::engine::{media_action, playback_shown, Command, Effect, EngineCore, MediaAction, MediaKey, PlaybackShown};
use posible::model::TrackInfo;
use posible::queue::{shuffled_order, Queue, Repeat};

fn track(id: &str) -> TrackInfo {
    TrackInfo {
        video_id: id.into(),
        title: None,
        author: None,
        thumbnail: None,
        duration_ms: None,
    }
}

fn queue_of(n: usize) -> Queue {
    let mut q = Queue::default();
    q.set_items((0..n).map(|i| track(&i.to_string())).collect(), 0);
    q
}

fn ids(q: &Queue) -> Vec<&str> {
    q.items().iter().map(|t| t.video_id.as_str()).collect()
}

#[test]
fn set_up_next_no_toca_la_pista_actual() {
    let mut q = queue_of(3);
    q.jump_to(1);
    let antes = q.current().unwrap().video_id.clone();

    let nuevas = vec![track("x"), track("y")];
    let detras = q.set_up_next(nuevas);

    assert_eq!(q.current().unwrap().video_id, antes, "cambio la pista actual");
    assert_eq!(q.index(), 1);
    assert_eq!(detras, 2);
    assert_eq!(q.len(), 4, "deberia quedar 0,1 + las dos nuevas");
}

#[test]
fn avanza_y_para_al_final() {
    let mut q = queue_of(3);
    assert_eq!(q.next(false).unwrap().video_id, "1");
    assert_eq!(q.next(false).unwrap().video_id, "2");
    assert!(q.next(false).is_none(), "Repeat::Off debe parar al final");
}

#[test]
fn repeat_all_da_la_vuelta() {
    let mut q = queue_of(3);
    q.set_repeat(Repeat::All);
    q.jump_to(2);
    assert_eq!(q.next(false).unwrap().video_id, "0");
}

#[test]
fn repeat_one_solo_afecta_al_fin_natural() {
    let mut q = queue_of(3);
    q.set_repeat(Repeat::One);
    assert_eq!(q.next(true).unwrap().video_id, "0", "fin natural repite");
    assert_eq!(q.next(false).unwrap().video_id, "1", "el usuario si avanza");
}

#[test]
fn prev_se_queda_al_principio() {
    let mut q = queue_of(3);
    assert_eq!(q.prev().unwrap().video_id, "0");
}

#[test]
fn peek_next_no_muta() {
    let q = queue_of(3);
    assert_eq!(q.peek_next().unwrap().video_id, "1");
    assert_eq!(q.index(), 0, "peek no debe mover el indice");
}

#[test]
fn shuffle_deja_la_actual_primero() {
    let mut q = queue_of(20);
    q.jump_to(7);
    q.set_shuffle(true);
    assert_eq!(q.current().unwrap().video_id, "7");
    let mut seen = vec![q.current().unwrap().video_id.clone()];
    while let Some(t) = q.next(false) {
        seen.push(t.video_id.clone());
    }
    seen.sort();
    seen.dedup();
    assert_eq!(seen.len(), 20, "shuffle debe cubrir toda la cola");
}

#[test]
fn play_next_conserva_el_resto_de_la_cola() {
    let mut q = Queue::default();
    q.set_items(vec![track("a"), track("b"), track("c")], 0);
    q.play_next(track("z"));

    assert_eq!(ids(&q), ["a", "z", "b", "c"]);
    assert_eq!(q.current().unwrap().video_id, "a", "la que suena no cambia");
}

#[test]
fn play_next_de_algo_que_ya_estaba_lo_mueve_en_vez_de_duplicarlo() {
    let mut q = Queue::default();
    q.set_items(vec![track("a"), track("b"), track("c")], 0);
    q.play_next(track("c"));
    assert_eq!(ids(&q), ["a", "c", "b"]);
}

#[test]
fn play_next_no_descoloca_la_actual_al_mover_algo_de_delante() {
    let mut q = Queue::default();
    q.set_items(vec![track("a"), track("b"), track("c")], 2);
    q.play_next(track("a"));

    assert_eq!(ids(&q), ["b", "c", "a"]);
    assert_eq!(q.current().unwrap().video_id, "c", "sigue sonando la misma");
}

#[test]
fn play_next_al_final_de_la_cola() {
    let mut q = Queue::default();
    q.set_items(vec![track("a")], 0);
    q.play_next(track("z"));
    assert_eq!(ids(&q), ["a", "z"]);
}

#[test]
fn anterior_deshace_siguiente() {
    let mut q = queue_of(4);
    q.jump_to(1);
    q.next(false);
    assert_eq!(q.index(), 2);
    q.prev();
    assert_eq!(q.index(), 1);
}

#[test]
fn el_vistazo_es_el_fin_natural() {
    for repeat in [Repeat::Off, Repeat::All, Repeat::One] {
        let mut q = queue_of(3);
        q.set_repeat(repeat);
        q.jump_to(2);
        let vista = q.peek_next().map(|t| t.video_id.clone());
        let tras = q.next(true).map(|t| t.video_id.clone());
        assert_eq!(vista, tras);
    }
}

#[test]
fn el_aleatorio_recorre_la_cola_sin_repetir() {
    let mut q = queue_of(9);
    q.set_shuffle(true);
    let mut seen = vec![q.current().unwrap().video_id.clone()];
    while let Some(t) = q.next(false) {
        seen.push(t.video_id.clone());
    }
    assert_eq!(seen.len(), 9);
    seen.sort();
    seen.dedup();
    assert_eq!(seen.len(), 9);
}

#[test]
fn por_delante_van_las_que_sonaran() {
    let q = queue_of(4);
    assert_eq!(q.ahead(2), vec![1, 2]);
    let mut q = queue_of(2);
    q.jump_to(1);
    assert!(q.ahead(2).is_empty(), "al final de la cola no viene nada");
    q.set_repeat(Repeat::All);
    assert_eq!(q.ahead(2), vec![0, 1]);
}

#[test]
fn el_motor_encola_y_arranca() {
    let mut e = EngineCore::new();
    assert_eq!(e.handle(Command::Enqueue(track("a")), 0), Effect::StartCurrent);
    assert_eq!(e.handle(Command::Enqueue(track("b")), 0), Effect::Prefetch);
    assert_eq!(e.queue_rev, 2);
    assert_eq!(e.handle(Command::Next, 0), Effect::StartCurrent);
    assert_eq!(e.handle(Command::Next, 0), Effect::Stop);
    assert_eq!(e.handle(Command::Prev, 5_000), Effect::SeekTo(0), "pasados 3 s reinicia");
    assert_eq!(e.handle(Command::Prev, 1_000), Effect::StartCurrent);
    assert_eq!(e.queue.index(), 0);
    assert_eq!(e.handle(Command::SetCacheLimit(10), 0), Effect::Prune);
    assert_eq!(e.cache_limit, 10);
}

#[test]
fn la_precarga_no_incluye_la_que_suena() {
    let mut e = EngineCore::new();
    e.handle(Command::SetQueue { tracks: vec![track("a"), track("b"), track("c")], start: 0 }, 0);
    assert_eq!(e.prefetch_targets(), vec!["b".to_string(), "c".to_string()]);
    e.handle(Command::SetRepeat(Repeat::One), 0);
    assert!(e.prefetch_targets().is_empty(), "con Repeat::One la siguiente es la actual");
}

#[test]
fn rellena_los_metadatos_que_faltan() {
    let mut e = EngineCore::new();
    e.handle(Command::PlayNow("abcdefghijk".into()), 0);
    let rev = e.queue_rev;
    let mut meta = track("abcdefghijk");
    meta.title = Some("Titulo".into());
    assert!(e.backfill(Some(meta), None));
    assert_eq!(e.queue_rev, rev + 1);
    assert_eq!(e.queue.current().unwrap().title.as_deref(), Some("Titulo"));
    assert!(!e.backfill(Some(track("x")), None), "con titulo no se toca");
}

#[test]
fn varios_play_next_seguidos_nunca_repiten_pista() {
    let mut q = Queue::default();
    q.set_items(vec![track("a"), track("b"), track("c"), track("d")], 1);
    for id in ["d", "a", "d", "c", "e"] {
        q.play_next(track(id));
        assert_eq!(q.current().unwrap().video_id, "b");
        assert_eq!(q.items()[q.index() + 1].video_id, id, "va justo detras de la actual");
        let mut vistos: Vec<&str> = ids(&q);
        vistos.sort();
        vistos.dedup();
        assert_eq!(vistos.len(), q.len(), "ninguna pista aparece dos veces");
    }
}

#[test]
fn las_teclas_multimedia_son_ordenes_del_motor() {
    assert!(matches!(media_action(MediaKey::Play), MediaAction::Send(Command::Resume)));
    assert!(matches!(media_action(MediaKey::Toggle), MediaAction::Send(Command::TogglePlay)));
    assert!(matches!(media_action(MediaKey::Previous), MediaAction::Send(Command::Prev)));
    assert!(matches!(media_action(MediaKey::SetPosition(61_000)), MediaAction::Send(Command::Seek(61_000))));
    assert!(matches!(media_action(MediaKey::Quit), MediaAction::Quit));
    assert!(matches!(media_action(MediaKey::Other), MediaAction::Ignore));
    assert_eq!(playback_shown(false, true), PlaybackShown::Stopped);
    assert_eq!(playback_shown(true, true), PlaybackShown::Playing);
    assert_eq!(playback_shown(true, false), PlaybackShown::Paused);
}

#[test]
fn siguiente_deshace_anterior() {
    let mut q = queue_of(4);
    q.jump_to(2);
    q.prev();
    assert_eq!(q.index(), 1);
    q.next(false);
    assert_eq!(q.index(), 2);
    // At the first track "previous" stays there, whatever the repeat mode.
    for repeat in [Repeat::Off, Repeat::All, Repeat::One] {
        let mut q = queue_of(4);
        q.set_repeat(repeat);
        assert_eq!(q.prev().unwrap().video_id, "0");
        assert_eq!(q.index(), 0);
    }
    // Shuffled: back and forth in the drawn order.
    let mut q = queue_of(10);
    q.jump_to(5);
    q.set_shuffle(true);
    q.next(false);
    let here = q.index();
    q.prev();
    q.next(false);
    assert_eq!(q.index(), here);
}

#[test]
fn play_next_con_aleatorio_suena_la_siguiente() {
    for repeat in [Repeat::Off, Repeat::All] {
        let mut q = queue_of(8);
        q.jump_to(3);
        q.set_repeat(repeat);
        q.set_shuffle(true);
        // A new track, and one already queued elsewhere.
        for id in ["nueva", "6", "0"] {
            q.play_next(track(id));
            assert_eq!(q.current().unwrap().video_id, "3");
            assert_eq!(q.peek_next().unwrap().video_id, id);
            assert_eq!(q.next(false).unwrap().video_id, id);
            q.prev();
            assert_eq!(q.current().unwrap().video_id, "3");
        }
        assert_eq!(q.len(), 9);
        let mut ids: Vec<String> = q.items().iter().map(|t| t.video_id.clone()).collect();
        ids.sort();
        ids.dedup();
        assert_eq!(ids.len(), 9);
    }
}

#[test]
fn el_orden_barajado_sale_de_la_semilla() {
    assert_eq!(shuffled_order(5, 2, 42), vec![2, 1, 3, 4, 0]);
    assert_eq!(shuffled_order(8, 0, 0), vec![0, 2, 5, 7, 4, 3, 6, 1]);
    // A current position outside the queue moves nothing to the front.
    assert_eq!(shuffled_order(3, 7, 123456789), vec![2, 0, 1]);
    assert_eq!(shuffled_order(1, 0, 5), vec![0]);
    assert!(shuffled_order(0, 0, 1).is_empty());
    // The same seed gives the same order.
    assert_eq!(shuffled_order(20, 7, 99), shuffled_order(20, 7, 99));
}
