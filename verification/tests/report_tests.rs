use gpumem::report_order;
use gpumem::MemoryUsage;
use gpumem::ParseState;
use gpumem::SENTINEL_PID;

fn entry(pid: i32, vram: u64, gtt: u64, other: u64) -> MemoryUsage {
    MemoryUsage { process_id: pid, vram_bytes: vram, gtt_bytes: gtt, other_bytes: other }
}

#[test]
fn sorted_descending_by_vram_plus_gtt() {
    let entries = vec![
        entry(1, 10, 5, 0),
        entry(2, 100, 0, 0),
        entry(3, 0, 40, 999),
    ];
    let out = report_order(&entries);
    assert_eq!(out.len(), 3);
    assert_eq!(out[0].process_id, 2);
    assert_eq!(out[1].process_id, 3);
    assert_eq!(out[2].process_id, 1);
    for w in out.windows(2) {
        assert!(w[0].vram_bytes + w[0].gtt_bytes >= w[1].vram_bytes + w[1].gtt_bytes);
    }
}

#[test]
fn equal_totals_keep_accumulation_order() {
    let entries = vec![
        entry(1, 50, 50, 0),
        entry(2, 200, 0, 0),
        entry(3, 100, 0, 0),
        entry(4, 0, 100, 7),
        entry(5, 60, 40, 0),
    ];
    let out = report_order(&entries);
    let pids: Vec<i32> = out.iter().map(|e| e.process_id).collect();
    // Totals: 100, 200, 100, 100, 100 — the four ties keep their order.
    assert_eq!(pids, vec![2, 1, 3, 4, 5]);
}

#[test]
fn sentinel_entry_is_excluded() {
    let entries = vec![
        entry(SENTINEL_PID, 5000, 0, 0),
        entry(9, 10, 0, 0),
    ];
    let out = report_order(&entries);
    assert_eq!(out.len(), 1);
    assert_eq!(out[0].process_id, 9);
}

#[test]
fn other_bytes_do_not_affect_order() {
    let entries = vec![
        entry(1, 1, 0, 1_000_000),
        entry(2, 2, 0, 0),
    ];
    let out = report_order(&entries);
    assert_eq!(out[0].process_id, 2);
}

#[test]
fn end_to_end_pass_and_report() {
    let mut st = ParseState::new();
    for l in [
        b"64 0x0 VRAM" as &[u8],
        b"pid 10",
        b"100 0x1 VRAM",
        b"pid 20",
        b"300 0x2 GTT",
        b"pid 10",
        b"50 0x3 GTT",
    ] {
        st.ingest_line(l);
    }
    let out = report_order(&st.entries);
    // The sentinel entry (64 bytes before any context) is excluded.
    assert_eq!(out.len(), 2);
    assert_eq!(out[0].process_id, 20);
    assert_eq!(out[0].gtt_bytes, 300);
    assert_eq!(out[1].process_id, 10);
    assert_eq!(out[1].vram_bytes, 100);
    assert_eq!(out[1].gtt_bytes, 50);
}

#[test]
fn empty_input_gives_empty_report() {
    let entries: Vec<MemoryUsage> = Vec::new();
    let out = report_order(&entries);
    assert!(out.is_empty());
}
