use posible::cache::{
    after_chunk, declared, decimal, parse_content_range_total, range_attempt, range_url, range_verdict,
    readable, seek_position, track_file_name, wait_step, CachedFile, Prune, RangeAttempt, RangeVerdict, SeekTo,
    WaitStep, CHUNK, DEFAULT_LIMIT,
};

fn archivo(len: u64, modified: u128, protected: bool) -> CachedFile {
    CachedFile { len, modified, protected }
}

/// Runs a pruning to the end, every removal succeeding; the positions removed.
fn podar(limit: u64, files: Vec<CachedFile>) -> Vec<usize> {
    let mut p = Prune::start(limit, files);
    let mut out = Vec::new();
    while let Some(i) = p.next_victim() {
        p.removed(i);
        out.push(i);
    }
    assert_eq!(p.count() as usize, out.len());
    out
}

#[test]
fn se_va_la_que_lleva_mas_tiempo_sin_sonar() {
    let files = vec![archivo(600, 30, false), archivo(600, 10, false), archivo(600, 20, false)];
    assert_eq!(podar(1_300, files), vec![1]);
}

#[test]
fn no_borra_la_que_esta_sonando() {
    let files = vec![archivo(600, 10, true), archivo(600, 20, false)];
    assert_eq!(podar(700, files), vec![1]);
}

#[test]
fn por_debajo_del_tope_no_toca_nada() {
    assert!(podar(10_000, vec![archivo(600, 1, false)]).is_empty());
}

#[test]
fn cero_es_sin_limite() {
    assert!(podar(0, vec![archivo(600, 1, false)]).is_empty());
}

#[test]
fn reutilizar_una_pista_la_pone_al_final_de_la_cola() {
    // The favourite was touched after the other: it is the newer one now.
    let files = vec![archivo(600, 50, false), archivo(600, 20, false)];
    assert_eq!(podar(700, files), vec![1]);
}

#[test]
fn un_borrado_fallido_no_cuenta() {
    let files = vec![archivo(600, 1, false), archivo(600, 2, false), archivo(600, 3, false)];
    let mut p = Prune::start(700, files);
    let first = p.next_victim().unwrap();
    assert_eq!(first, 0);
    // It could not be removed: the next one goes, and the one after it.
    assert_eq!(p.next_victim(), Some(1));
    p.removed(1);
    assert_eq!(p.next_victim(), Some(2));
    p.removed(2);
    assert_eq!(p.remaining(), 600);
    assert_eq!(p.next_victim(), None);
}

#[test]
fn a_igual_edad_va_primero_la_que_vino_antes() {
    let files = vec![archivo(600, 5, false), archivo(600, 5, false)];
    assert_eq!(podar(700, files), vec![0]);
}

#[test]
fn el_tope_de_fabrica_son_tres_gib() {
    assert_eq!(DEFAULT_LIMIT, 3 * 1024 * 1024 * 1024);
}

#[test]
fn nombre_de_la_pista_en_cache() {
    assert_eq!(track_file_name("abcdefghijk", 251), "abcdefghijk-251.m4a");
    assert_eq!(decimal(0), vec!['0']);
}

#[test]
fn el_rango_va_en_la_query() {
    assert_eq!(range_url("https://x/v?a=1", 0, 0), "https://x/v?a=1&range=0-262143&rn=0");
    assert_eq!(
        range_url("https://x/v?a=1", CHUNK, 1),
        "https://x/v?a=1&range=262144-524287&rn=1"
    );
}

#[test]
fn reintenta_los_rangos_rechazados() {
    assert_eq!(range_attempt(0, 200), RangeAttempt::Take);
    assert_eq!(range_attempt(0, 416), RangeAttempt::Take);
    assert_eq!(range_attempt(0, 403), RangeAttempt::Retry(400));
    assert_eq!(range_attempt(2, 403), RangeAttempt::Retry(1600));
    assert_eq!(range_attempt(3, 403), RangeAttempt::Take, "el ultimo intento se queda");
}

#[test]
fn el_muro_del_potoken() {
    assert_eq!(range_verdict(416, 0), RangeVerdict::Finished);
    assert_eq!(range_verdict(206, 0), RangeVerdict::Write);
    assert_eq!(range_verdict(403, 1_048_576), RangeVerdict::PoTokenWall);
    assert_eq!(range_verdict(403, 0), RangeVerdict::Refused);
    assert_eq!(range_verdict(500, 2_000_000), RangeVerdict::Refused);
}

#[test]
fn la_descarga_acaba_con_un_trozo_corto() {
    assert_eq!(after_chunk(0, 10, 0), (10, false));
    assert_eq!(after_chunk(100, 0, 0), (100, false));
    assert_eq!(after_chunk(CHUNK, 0, 0), (CHUNK, true));
    assert_eq!(after_chunk(CHUNK, 0, CHUNK), (CHUNK, false));
}

#[test]
fn el_total_de_content_range() {
    assert_eq!(parse_content_range_total("bytes 0-1048575/3448192"), Some(3_448_192));
    assert_eq!(parse_content_range_total("bytes 0-1048575/*"), None);
    assert_eq!(parse_content_range_total("basura"), None);
    assert_eq!(declared("https://x/v?clen=3448192&a=1"), 3_448_192);
    assert_eq!(declared("https://x/v?a=1"), 0);
}

#[test]
fn el_salto_satura() {
    assert_eq!(seek_position(10, 100, SeekTo::Start(5)), 5);
    assert_eq!(seek_position(10, 100, SeekTo::Current(-20)), 0);
    assert_eq!(seek_position(10, 100, SeekTo::Current(5)), 15);
    assert_eq!(seek_position(10, 100, SeekTo::End(-1)), 99);
    assert_eq!(seek_position(u64::MAX, 0, SeekTo::Current(1)), u64::MAX);
}

#[test]
fn se_lee_lo_que_hay() {
    assert_eq!(readable(10, 10, 4096), 0, "fin real");
    assert_eq!(readable(0, 100, 4096), 100);
    assert_eq!(readable(0, 10_000, 4096), 4096);
}

#[test]
fn esperar_bytes() {
    assert_eq!(wait_step(true, 0, 1, false, false), WaitStep::Failed);
    assert_eq!(wait_step(false, 5, 1, false, true), WaitStep::Ready);
    assert_eq!(wait_step(false, 0, 1, true, false), WaitStep::Ready);
    assert_eq!(wait_step(false, 0, 1, false, true), WaitStep::TimedOut);
    assert_eq!(wait_step(false, 0, 1, false, false), WaitStep::Again);
}

#[test]
fn cada_pista_tiene_su_fichero() {
    assert_eq!(track_file_name("a-1", 2), "a-1-2.m4a");
    assert_ne!(track_file_name("a-1", 2), track_file_name("a", 12));
    assert_ne!(track_file_name("a", 140), track_file_name("a-1", 40));
    assert_ne!(track_file_name("jig2aRZbHm4", 140), track_file_name("jig2aRZbHm4", 251));
}
