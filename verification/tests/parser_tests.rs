use gpumem::ParseState;
use gpumem::SENTINEL_PID;

#[test]
fn context_then_alloc() {
    let mut st = ParseState::new();
    st.ingest_line(b"pid 42");
    st.ingest_line(b"1024 0x1 VRAM");
    assert_eq!(st.entries.len(), 1);
    assert_eq!(st.entries[0].process_id, 42);
    assert_eq!(st.entries[0].vram_bytes, 1024);
    assert_eq!(st.entries[0].gtt_bytes, 0);
    assert_eq!(st.entries[0].other_bytes, 0);
}

#[test]
fn alloc_before_context_uses_sentinel() {
    let mut st = ParseState::new();
    st.ingest_line(b"1024 0x1 VRAM");
    assert_eq!(st.entries.len(), 1);
    assert_eq!(st.entries[0].process_id, SENTINEL_PID);
    assert_eq!(st.entries[0].vram_bytes, 1024);
}

#[test]
fn short_line_contributes_nothing() {
    let mut st = ParseState::new();
    st.ingest_line(b"pid 42");
    st.ingest_line(b"1024 0x1");
    assert_eq!(st.entries.len(), 0);
}

#[test]
fn empty_and_blank_lines_ignored() {
    let mut st = ParseState::new();
    st.ingest_line(b"");
    st.ingest_line(b"   \t ");
    assert_eq!(st.entries.len(), 0);
    assert_eq!(st.current_process_id, SENTINEL_PID);
}

#[test]
fn unknown_label_goes_to_other() {
    let mut st = ParseState::new();
    st.ingest_line(b"pid 7");
    st.ingest_line(b"512 0x2 CPU");
    assert_eq!(st.entries.len(), 1);
    assert_eq!(st.entries[0].process_id, 7);
    assert_eq!(st.entries[0].vram_bytes, 0);
    assert_eq!(st.entries[0].gtt_bytes, 0);
    assert_eq!(st.entries[0].other_bytes, 512);
}

#[test]
fn label_match_is_case_sensitive() {
    let mut st = ParseState::new();
    st.ingest_line(b"pid 7");
    st.ingest_line(b"512 0x2 vram");
    assert_eq!(st.entries[0].vram_bytes, 0);
    assert_eq!(st.entries[0].other_bytes, 512);
}

#[test]
fn bad_context_line_keeps_previous_context() {
    let mut st = ParseState::new();
    st.ingest_line(b"pid 42");
    st.ingest_line(b"pid abc");
    st.ingest_line(b"100 0x1 VRAM");
    assert_eq!(st.current_process_id, 42);
    assert_eq!(st.entries.len(), 1);
    assert_eq!(st.entries[0].process_id, 42);
    assert_eq!(st.entries[0].vram_bytes, 100);
}

#[test]
fn overflowing_context_id_is_ignored() {
    let mut st = ParseState::new();
    st.ingest_line(b"pid 99999999999999999999");
    assert_eq!(st.current_process_id, SENTINEL_PID);
}

#[test]
fn negative_context_id_parses() {
    let mut st = ParseState::new();
    st.ingest_line(b"pid -5");
    st.ingest_line(b"8 0x1 GTT");
    assert_eq!(st.entries[0].process_id, -5);
    assert_eq!(st.entries[0].gtt_bytes, 8);
}

#[test]
fn plus_signed_bytes_parse() {
    let mut st = ParseState::new();
    st.ingest_line(b"pid 1");
    st.ingest_line(b"+123 0x1 GTT");
    assert_eq!(st.entries[0].gtt_bytes, 123);
}

#[test]
fn overflowing_byte_count_is_ignored() {
    let mut st = ParseState::new();
    st.ingest_line(b"pid 1");
    st.ingest_line(b"18446744073709551616 0x1 VRAM");
    assert_eq!(st.entries.len(), 0);
}

#[test]
fn byte_counters_saturate() {
    let mut st = ParseState::new();
    st.ingest_line(b"pid 1");
    st.ingest_line(b"18446744073709551615 0x1 VRAM");
    st.ingest_line(b"18446744073709551615 0x2 VRAM");
    assert_eq!(st.entries[0].vram_bytes, u64::MAX);
}

#[test]
fn context_line_with_extra_tokens_still_switches() {
    let mut st = ParseState::new();
    st.ingest_line(b"pid 42 command something");
    st.ingest_line(b"10 0x1 VRAM");
    assert_eq!(st.entries[0].process_id, 42);
}

#[test]
fn alloc_line_with_extra_tokens_still_counts() {
    let mut st = ParseState::new();
    st.ingest_line(b"pid 3");
    st.ingest_line(b"10 0x1 VRAM trailing fields");
    assert_eq!(st.entries[0].vram_bytes, 10);
}

#[test]
fn non_numeric_first_token_is_ignored() {
    let mut st = ParseState::new();
    st.ingest_line(b"pid 3");
    st.ingest_line(b"pids 1 2 3");
    assert_eq!(st.entries.len(), 0);
}

#[test]
fn arbitrary_whitespace_separates_tokens() {
    let mut st = ParseState::new();
    st.ingest_line(b"  pid \t 42  ");
    st.ingest_line(b"\t1024\t 0x1 \t VRAM \n");
    assert_eq!(st.entries.len(), 1);
    assert_eq!(st.entries[0].process_id, 42);
    assert_eq!(st.entries[0].vram_bytes, 1024);
}

#[test]
fn accumulation_across_context_revisits() {
    let mut st = ParseState::new();
    st.ingest_line(b"pid 1");
    st.ingest_line(b"10 0x1 VRAM");
    st.ingest_line(b"pid 2");
    st.ingest_line(b"20 0x2 GTT");
    st.ingest_line(b"pid 1");
    st.ingest_line(b"5 0x3 VRAM");
    st.ingest_line(b"7 0x4 GTT");
    assert_eq!(st.entries.len(), 2);
    assert_eq!(st.entries[0].process_id, 1);
    assert_eq!(st.entries[0].vram_bytes, 15);
    assert_eq!(st.entries[0].gtt_bytes, 7);
    assert_eq!(st.entries[1].process_id, 2);
    assert_eq!(st.entries[1].gtt_bytes, 20);
}

#[test]
fn parse_lines_matches_ingest() {
    let lines: Vec<Vec<u8>> = vec![
        b"pid 42".to_vec(),
        b"1024 0x1 VRAM".to_vec(),
        b"512 0x2 GTT".to_vec(),
    ];
    let st = gpumem::parse_lines(&lines);
    assert_eq!(st.entries.len(), 1);
    assert_eq!(st.entries[0].vram_bytes, 1024);
    assert_eq!(st.entries[0].gtt_bytes, 512);
}

#[test]
fn vram_bytes_are_conserved() {
    let mut st = ParseState::new();
    let lines: &[&[u8]] = &[
        b"3 0x0 VRAM",
        b"pid 10",
        b"100 0x1 VRAM",
        b"50 0x2 GTT",
        b"pid 11",
        b"200 0x3 VRAM",
        b"7 0x4 CPU",
        b"junk",
        b"pid 10",
        b"400 0x5 VRAM",
    ];
    for l in lines {
        st.ingest_line(l);
    }
    let vram_sum: u64 = st.entries.iter().map(|e| e.vram_bytes).sum();
    assert_eq!(vram_sum, 3 + 100 + 200 + 400);
    let gtt_sum: u64 = st.entries.iter().map(|e| e.gtt_bytes).sum();
    assert_eq!(gtt_sum, 50);
    let other_sum: u64 = st.entries.iter().map(|e| e.other_bytes).sum();
    assert_eq!(other_sum, 7);
}
