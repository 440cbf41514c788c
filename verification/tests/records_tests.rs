use recall_core::records::{
    classic_level_name, encode_infinite_record, encode_mode_record, format_mm_ss,
    parse_infinite_record, parse_mode_record, precision_pct, rank_for_precision,
    register_infinite_round_result, register_non_infinite_result, MODE_HISTORY_LIMIT,
};
use recall_core::state::{AppState, Difficulty, InfiniteRecord, ModeRecord, Rank};

fn pool() -> Vec<String> {
    ["a", "b", "c", "d", "e", "f"].iter().map(|s| s.to_string()).collect()
}

#[test]
fn mm_ss_formatting() {
    assert_eq!(format_mm_ss(0), "00:00");
    assert_eq!(format_mm_ss(125), "02:05");
    assert_eq!(format_mm_ss(3599), "59:59");
    assert_eq!(format_mm_ss(6000), "100:00");
}

#[test]
fn precision_rounding() {
    assert_eq!(precision_pct(0, 0), 100);
    assert_eq!(precision_pct(6, 0), 100);
    assert_eq!(precision_pct(1, 2), 33);
    assert_eq!(precision_pct(1, 7), 13);
    assert_eq!(precision_pct(1, 1), 50);
    assert_eq!(precision_pct(2, 1), 67);
}

#[test]
fn rank_thresholds() {
    assert_eq!(rank_for_precision(2, 100), Rank::S);
    assert_eq!(rank_for_precision(2, 90), Rank::A);
    assert_eq!(rank_for_precision(2, 89), Rank::B);
    assert_eq!(rank_for_precision(2, 80), Rank::B);
    assert_eq!(rank_for_precision(2, 79), Rank::C);
    assert_eq!(rank_for_precision(1, 85), Rank::A);
    assert_eq!(rank_for_precision(3, 88), Rank::A);
    assert_eq!(rank_for_precision(4, 85), Rank::A);
    assert_eq!(rank_for_precision(4, 70), Rank::B);
}

#[test]
fn rank_letters() {
    assert_eq!(Rank::S.as_str(), "S");
    assert_eq!(Rank::from_str("a"), Some(Rank::A));
    assert_eq!(Rank::from_str("  B  "), Some(Rank::B));
    assert_eq!(Rank::from_str("q"), None);
    assert_eq!(Rank::from_str(""), None);
    assert_eq!(Rank::from_str("SS"), None);
}

#[test]
fn classic_level_names() {
    assert_eq!(classic_level_name(1), "Easy");
    assert_eq!(classic_level_name(4), "Expert");
    assert_eq!(classic_level_name(0), "Easy");
}

#[test]
fn register_result_books_record_and_banner() {
    let p = pool();
    let mut st = AppState::new(&p);
    st.set_difficulty(Difficulty::Medium, &p);
    st.run_matches = 12;
    st.run_mismatches = 0;
    st.seconds_elapsed = 125;
    register_non_infinite_result(&mut st, "2026-03-01 10:00".to_string());
    assert_eq!(st.records.classic.len(), 1);
    let rec = st.records.classic.last().unwrap();
    assert_eq!(rec.level, 2);
    assert_eq!(rec.time_secs, 125);
    assert_eq!(rec.precision_pct, 100);
    assert_eq!(rec.rank, Rank::S);
    assert_eq!(rec.date_label, "2026-03-01 10:00");
    assert_eq!(st.victory_title_text, "Flawless Memory!");
    assert_eq!(st.victory_message_text, "Classic Normal completed");
    assert_eq!(
        st.victory_stats_text,
        "Time: 02:05\nPrecision: 100%\nHarmony: S"
    );
}

#[test]
fn register_tri_result_goes_to_tri_history() {
    let p = pool();
    let mut st = AppState::new(&p);
    st.set_difficulty(Difficulty::Tri, &p);
    st.run_matches = 10;
    st.run_mismatches = 3;
    register_non_infinite_result(&mut st, "d".to_string());
    assert_eq!(st.records.tri.len(), 1);
    assert!(st.records.classic.is_empty());
    assert_eq!(st.records.tri[0].level, st.tri_level);
    assert_eq!(st.victory_message_text, "Tri Hard completed");
}

#[test]
fn history_eviction_at_two_hundred() {
    let p = pool();
    let mut st = AppState::new(&p);
    st.set_difficulty(Difficulty::Easy, &p);
    for i in 0..MODE_HISTORY_LIMIT {
        st.records.classic.push(ModeRecord {
            level: 1,
            time_secs: i as u32,
            precision_pct: 50,
            rank: Rank::C,
            date_label: format!("day {}", i),
        });
    }
    assert_eq!(st.records.classic.len(), 200);
    let oldest = st.records.classic[0].clone();
    let second = st.records.classic[1].clone();
    st.run_matches = 6;
    register_non_infinite_result(&mut st, "the 201st".to_string());
    // The list stays at the limit, the oldest entry is gone, and the
    // formerly-second entry now leads.
    assert_eq!(st.records.classic.len(), 200);
    assert_eq!(st.records.classic[0].time_secs, second.time_secs);
    assert_eq!(st.records.classic[0].date_label, second.date_label);
    assert!(st
        .records
        .classic
        .iter()
        .all(|r| r.date_label != oldest.date_label || r.time_secs != oldest.time_secs));
    assert_eq!(st.records.classic.last().unwrap().date_label, "the 201st");
}

#[test]
fn infinite_round_results() {
    let p = pool();
    let mut st = AppState::new(&p);
    st.set_difficulty(Difficulty::RecallMode, &p);
    st.infinite_round = 13;
    st.seconds_elapsed = 598;
    register_infinite_round_result(&mut st, "night".to_string());
    assert_eq!(st.records.infinite.len(), 1);
    let rec = &st.records.infinite[0];
    assert_eq!(rec.round, 13);
    assert_eq!(rec.segment_level, 4);
    assert_eq!(rec.segment_survival, 2);
    assert_eq!(rec.time_secs, 598);
    assert_eq!(rec.date_label, "night");

    st.infinite_round = 8;
    register_infinite_round_result(&mut st, "later".to_string());
    let rec = st.records.infinite.last().unwrap();
    assert_eq!(rec.segment_level, 3);
    assert_eq!(rec.segment_survival, 1);

    st.infinite_round = 2;
    register_infinite_round_result(&mut st, "early".to_string());
    let rec = st.records.infinite.last().unwrap();
    assert_eq!(rec.segment_level, 1);
    assert_eq!(rec.segment_survival, 2);
}

#[test]
fn mode_record_line_round_trip() {
    let rec = ModeRecord {
        level: 3,
        time_secs: 114,
        precision_pct: 87,
        rank: Rank::B,
        date_label: "2026-02-14 19:06".to_string(),
    };
    let line = encode_mode_record(&rec);
    assert_eq!(line, "3|B|114|87|2026-02-14 19:06");
    let parsed = parse_mode_record(&line).expect("written line must parse");
    assert_eq!(parsed.level, 3);
    assert_eq!(parsed.time_secs, 114);
    assert_eq!(parsed.precision_pct, 87);
    assert_eq!(parsed.rank, Rank::B);
    assert_eq!(parsed.date_label, "2026-02-14 19:06");
}

#[test]
fn mode_record_line_rejects_bad_fields() {
    assert!(parse_mode_record("3|B|114|87").is_none());
    assert!(parse_mode_record("x|B|114|87|d").is_none());
    assert!(parse_mode_record("3|Q|114|87|d").is_none());
    assert!(parse_mode_record("3|B|abc|87|d").is_none());
    assert!(parse_mode_record("").is_none());
}

#[test]
fn infinite_record_line_round_trip() {
    let rec = InfiniteRecord {
        round: 16,
        segment_level: 4,
        segment_survival: 6,
        time_secs: 780,
        date_label: "late\nnight".to_string(),
    };
    let line = encode_infinite_record(&rec);
    // Newlines in the label are written as spaces.
    assert_eq!(line, "16|4|6|780|late night");
    let parsed = parse_infinite_record(&line).expect("written line must parse");
    assert_eq!(parsed.round, 16);
    assert_eq!(parsed.segment_level, 4);
    assert_eq!(parsed.segment_survival, 6);
    assert_eq!(parsed.time_secs, 780);
    assert_eq!(parsed.date_label, "late night");
}
