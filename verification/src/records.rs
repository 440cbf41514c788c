use vstd::prelude::*;

use crate::infinite::{
    spec_classic_difficulty_for_round, spec_expert_survival_rounds, spec_hard_survival_rounds,
};
use crate::state::{AppState, Difficulty, InfiniteRecord, ModeRecord, Rank};
use crate::text::{
    chars_to_string, char_views, parse_u32_chars, parse_u8_chars, push_u64_chars, spec_num_chars,
    spec_parse_u32, spec_parse_u8, spec_split, split_chars, str_to_chars,
};

verus! {

/// Most round results kept per classic-style mode.
pub const MODE_HISTORY_LIMIT: usize = 200;

/// Most round results kept for the endless mode.
pub const INFINITE_HISTORY_LIMIT: usize = 200;

/// A number padded to at least two digits.
pub open spec fn spec_pad2(n: nat) -> Seq<char> {
    if n < 10 {
        seq!['0'] + spec_num_chars(n)
    } else {
        spec_num_chars(n)
    }
}

/// A duration as `mm:ss` (minutes may exceed two digits).
pub open spec fn spec_mm_ss(total_secs: u32) -> Seq<char> {
    spec_pad2((total_secs / 60) as nat) + seq![':'] + spec_pad2((total_secs % 60) as nat)
}

/// Append `n` padded to at least two digits.
fn push_pad2(n: u32, out: &mut Vec<char>)
    ensures
        final(out)@ == old(out)@ + spec_pad2(n as nat),
{
    if n < 10 {
        out.push('0');
    }
    push_u64_chars(n as u64, out);
    proof {
        assert(final(out)@ =~= old(out)@ + spec_pad2(n as nat));
    }
}

/// A duration formatted as `mm:ss`.
pub fn format_mm_ss(total_secs: u32) -> (r: String)
    ensures
        r@ == spec_mm_ss(total_secs),
{
    let mut out: Vec<char> = Vec::new();
    push_pad2(total_secs / 60, &mut out);
    out.push(':');
    push_pad2(total_secs % 60, &mut out);
    proof {
        assert(out@ =~= spec_mm_ss(total_secs));
    }
    chars_to_string(&out)
}

pub open spec fn spec_classic_level_name(level: u8) -> Seq<char> {
    if level <= 1 {
        "Easy"@
    } else if level == 2 {
        "Normal"@
    } else if level == 3 {
        "Hard"@
    } else {
        "Expert"@
    }
}

/// Display name of a classic-style level.
pub fn classic_level_name(level: u8) -> (r: &'static str)
    ensures
        r@ == spec_classic_level_name(level),
{
    if level <= 1 {
        "Easy"
    } else if level == 2 {
        "Normal"
    } else if level == 3 {
        "Hard"
    } else {
        "Expert"
    }
}

/// The grade a precision percentage earns at a given level: a perfect run
/// is an S; otherwise each level has its own A and B thresholds.
pub open spec fn spec_rank_for_precision(level: u8, precision_pct: u8) -> Rank {
    if precision_pct >= 100 {
        Rank::S
    } else {
        let clamped: u8 = if level < 1 {
            1
        } else if level > 4 {
            4
        } else {
            level
        };
        let a_threshold: u8 = if clamped == 1 {
            85
        } else if clamped == 2 {
            90
        } else if clamped == 3 {
            88
        } else {
            85
        };
        let b_threshold: u8 = if clamped == 1 {
            70
        } else if clamped == 2 {
            80
        } else if clamped == 3 {
            75
        } else {
            70
        };
        if precision_pct >= a_threshold {
            Rank::A
        } else if precision_pct >= b_threshold {
            Rank::B
        } else {
            Rank::C
        }
    }
}

pub fn rank_for_precision(level: u8, precision_pct: u8) -> (r: Rank)
    ensures
        r == spec_rank_for_precision(level, precision_pct),
{
    if precision_pct >= 100 {
        return Rank::S;
    }
    let clamped: u8 = if level < 1 {
        1
    } else if level > 4 {
        4
    } else {
        level
    };
    let a_threshold: u8 = if clamped == 1 {
        85
    } else if clamped == 2 {
        90
    } else if clamped == 3 {
        88
    } else {
        85
    };
    let b_threshold: u8 = if clamped == 1 {
        70
    } else if clamped == 2 {
        80
    } else if clamped == 3 {
        75
    } else {
        70
    };
    if precision_pct >= a_threshold {
        Rank::A
    } else if precision_pct >= b_threshold {
        Rank::B
    } else {
        Rank::C
    }
}

/// `a + b`, saturating at the type's maximum.
pub open spec fn sat_add_u32(a: u32, b: u32) -> u32 {
    if a + b > u32::MAX {
        u32::MAX
    } else {
        (a + b) as u32
    }
}

/// The precision percentage of a run: matches over attempts, rounded to
/// the nearest percent (an untouched board counts as perfect).
pub open spec fn spec_precision_pct(matches: u32, mismatches: u32) -> u8 {
    let attempts = sat_add_u32(matches, mismatches);
    if attempts == 0 {
        100
    } else {
        ((200 * matches + attempts) / (2 * attempts)) as u8
    }
}

/// The precision percentage of a run.
pub fn precision_pct(matches: u32, mismatches: u32) -> (r: u8)
    ensures
        r == spec_precision_pct(matches, mismatches),
{
    let attempts: u32 = if matches as u64 + mismatches as u64 > u32::MAX as u64 {
        u32::MAX
    } else {
        matches + mismatches
    };
    if attempts == 0 {
        return 100;
    }
    let num: u64 = 200u64 * (matches as u64) + attempts as u64;
    let den: u64 = 2u64 * (attempts as u64);
    proof {
        assert(matches <= attempts);
        assert(num / den <= 100) by (nonlinear_arith)
            requires
                num == 200 * (matches as u64) + attempts as u64,
                den == 2 * (attempts as u64),
                matches <= attempts,
                attempts >= 1,
        ;
        assert(num / den == (200 * matches + attempts) / (2 * attempts)) by (nonlinear_arith)
            requires
                num == 200 * (matches as u64) + attempts as u64,
                den == 2 * (attempts as u64),
                attempts >= 1,
        ;
    }
    (num / den) as u8
}

/// A bounded append: push the new entry and drop the oldest entries until
/// the limit is met again.
pub open spec fn spec_append_bounded<T>(h: Seq<T>, x: T, limit: nat) -> Seq<T> {
    let p = h.push(x);
    if p.len() > limit {
        p.skip(p.len() - limit)
    } else {
        p
    }
}

/// Appending to a full history evicts exactly the oldest entry: the result
/// is the old history without its first entry, with the new entry at the
/// end, still at the limit.
pub proof fn lemma_history_eviction<T>(h: Seq<T>, x: T, limit: nat)
    requires
        h.len() == limit,
        limit >= 1,
    ensures
        spec_append_bounded(h, x, limit) == h.skip(1).push(x),
        spec_append_bounded(h, x, limit).len() == limit,
{
    assert(spec_append_bounded(h, x, limit) =~= h.skip(1).push(x));
}

/// Push one record, evicting the oldest past the limit.
fn append_bounded_mode(records: &mut Vec<ModeRecord>, rec: ModeRecord, limit: usize)
    requires
        limit >= 1,
    ensures
        final(records)@ == spec_append_bounded(old(records)@, rec, limit as nat),
{
    records.push(rec);
    let ghost p = records@;
    proof {
        assert(p.skip(0) =~= p);
    }
    while records.len() > limit
        invariant
            limit >= 1,
            records@ == p.skip(p.len() - records@.len()),
            records@.len() <= p.len(),
            p.len() <= limit ==> records@ == p,
            p.len() > limit ==> records@.len() >= limit,
        decreases records@.len(),
    {
        records.remove(0);
        proof {
            assert(records@ =~= p.skip(p.len() - records@.len()));
        }
    }
    proof {
        if p.len() > limit {
            assert(records@.len() == limit);
            assert(records@ == p.skip(p.len() - limit));
        }
    }
}

/// Push one endless-mode record, evicting the oldest past the limit.
fn append_bounded_infinite(records: &mut Vec<InfiniteRecord>, rec: InfiniteRecord, limit: usize)
    requires
        limit >= 1,
    ensures
        final(records)@ == spec_append_bounded(old(records)@, rec, limit as nat),
{
    records.push(rec);
    let ghost p = records@;
    proof {
        assert(p.skip(0) =~= p);
    }
    while records.len() > limit
        invariant
            limit >= 1,
            records@ == p.skip(p.len() - records@.len()),
            records@.len() <= p.len(),
            p.len() <= limit ==> records@ == p,
            p.len() > limit ==> records@.len() >= limit,
        decreases records@.len(),
    {
        records.remove(0);
        proof {
            assert(records@ =~= p.skip(p.len() - records@.len()));
        }
    }
    proof {
        if p.len() > limit {
            assert(records@.len() == limit);
            assert(records@ == p.skip(p.len() - limit));
        }
    }
}

/// The classic-style level a finished non-endless round counts as.
pub open spec fn spec_result_level(st: AppState) -> u8 {
    if st.difficulty == Difficulty::Tri {
        st.tri_level
    } else if st.difficulty == Difficulty::Easy {
        1
    } else if st.difficulty == Difficulty::Medium {
        2
    } else if st.difficulty == Difficulty::Hard {
        3
    } else if st.difficulty == Difficulty::Impossible {
        4
    } else {
        1
    }
}

pub open spec fn spec_victory_title(rank: Rank) -> Seq<char> {
    match rank {
        Rank::S => "Flawless Memory!"@,
        Rank::A => "Sharp Mind!"@,
        Rank::B => "Keep the Momentum!"@,
        Rank::C => "Growing Strong!"@,
    }
}

/// Book a finished Classic or Tri round: compute its precision and rank,
/// append the result to the mode's bounded history (oldest evicted past the
/// limit), and set the victory banner texts.
pub fn register_non_infinite_result(st: &mut AppState, date_label: String)
    ensures
        *final(st) == (AppState {
            records: final(st).records,
            victory_title_text: final(st).victory_title_text,
            victory_message_text: final(st).victory_message_text,
            victory_stats_text: final(st).victory_stats_text,
            ..*old(st)
        }),
        ({
            let level = spec_result_level(*old(st));
            let pct = spec_precision_pct(old(st).run_matches, old(st).run_mismatches);
            let rank = spec_rank_for_precision(level, pct);
            let is_tri = old(st).difficulty == Difficulty::Tri;
            let old_list = if is_tri {
                old(st).records.tri@
            } else {
                old(st).records.classic@
            };
            let new_list = if is_tri {
                final(st).records.tri@
            } else {
                final(st).records.classic@
            };
            &&& (is_tri ==> final(st).records.classic@ == old(st).records.classic@)
            &&& (!is_tri ==> final(st).records.tri@ == old(st).records.tri@)
            &&& final(st).records.infinite@ == old(st).records.infinite@
            &&& new_list.len() >= 1
            &&& new_list == spec_append_bounded(
                old_list,
                new_list.last(),
                MODE_HISTORY_LIMIT as nat,
            )
            &&& new_list.last().level == level
            &&& new_list.last().time_secs == old(st).seconds_elapsed
            &&& new_list.last().precision_pct == pct
            &&& new_list.last().rank == rank
            &&& new_list.last().date_label@ == date_label@
            &&& final(st).victory_title_text@ == spec_victory_title(rank)
            &&& final(st).victory_message_text@ == (if is_tri {
                "Tri "@
            } else {
                "Classic "@
            }) + spec_classic_level_name(level) + " completed"@
            &&& final(st).victory_stats_text@ == "Time: "@ + spec_mm_ss(old(st).seconds_elapsed)
                + "\nPrecision: "@ + spec_num_chars(pct as nat) + "%\nHarmony: "@
                + rank.spec_as_str()
        }),
{
    let pct = precision_pct(st.run_matches, st.run_mismatches);
    let level: u8 = if st.difficulty == Difficulty::Tri {
        st.tri_level
    } else {
        match st.difficulty {
            Difficulty::Easy => 1,
            Difficulty::Medium => 2,
            Difficulty::Hard => 3,
            Difficulty::Impossible => 4,
            _ => 1,
        }
    };
    let rank = rank_for_precision(level, pct);
    let candidate = ModeRecord {
        level,
        time_secs: st.seconds_elapsed,
        precision_pct: pct,
        rank,
        date_label,
    };
    let ghost cand = candidate;
    if st.difficulty == Difficulty::Tri {
        append_bounded_mode(&mut st.records.tri, candidate, MODE_HISTORY_LIMIT);
        proof {
            lemma_append_bounded_last(old(st).records.tri@, cand, MODE_HISTORY_LIMIT as nat);
        }
    } else {
        append_bounded_mode(&mut st.records.classic, candidate, MODE_HISTORY_LIMIT);
        proof {
            lemma_append_bounded_last(old(st).records.classic@, cand, MODE_HISTORY_LIMIT as nat);
        }
    }

    st.victory_title_text = match rank {
        Rank::S => "Flawless Memory!".to_owned(),
        Rank::A => "Sharp Mind!".to_owned(),
        Rank::B => "Keep the Momentum!".to_owned(),
        Rank::C => "Growing Strong!".to_owned(),
    };

    let mut message: Vec<char> = if st.difficulty == Difficulty::Tri {
        str_to_chars("Tri ")
    } else {
        str_to_chars("Classic ")
    };
    let mut name_chars = str_to_chars(classic_level_name(level));
    message.append(&mut name_chars);
    let mut completed = str_to_chars(" completed");
    message.append(&mut completed);
    st.victory_message_text = chars_to_string(&message);

    let mut stats: Vec<char> = str_to_chars("Time: ");
    let mut time_chars = str_to_chars(format_mm_ss(st.seconds_elapsed).as_str());
    stats.append(&mut time_chars);
    let mut precision_label = str_to_chars("\nPrecision: ");
    stats.append(&mut precision_label);
    push_u64_chars(pct as u64, &mut stats);
    let mut harmony_label = str_to_chars("%\nHarmony: ");
    stats.append(&mut harmony_label);
    let mut rank_chars = str_to_chars(rank.as_str());
    stats.append(&mut rank_chars);
    st.victory_stats_text = chars_to_string(&stats);
}

/// The new entry of a bounded append is its last element.
proof fn lemma_append_bounded_last<T>(h: Seq<T>, x: T, limit: nat)
    requires
        limit >= 1,
    ensures
        spec_append_bounded(h, x, limit).len() >= 1,
        spec_append_bounded(h, x, limit).last() == x,
        spec_append_bounded(h, x, limit) == spec_append_bounded(
            h,
            spec_append_bounded(h, x, limit).last(),
            limit,
        ),
{
    let p = h.push(x);
    if p.len() > limit {
        assert(p.skip(p.len() - limit).len() == limit);
        assert(p.skip(p.len() - limit).last() == p.last());
    }
}

/// Book a finished endless-mode round: record the round, its tier segment
/// and the survival streak within it, appending to the bounded history
/// (oldest evicted past the limit).
pub fn register_infinite_round_result(st: &mut AppState, date_label: String)
    ensures
        *final(st) == (AppState { records: final(st).records, ..*old(st) }),
        final(st).records.classic@ == old(st).records.classic@,
        final(st).records.tri@ == old(st).records.tri@,
        ({
            let round = old(st).infinite_round;
            let segment = spec_classic_difficulty_for_round(round);
            let new_list = final(st).records.infinite@;
            &&& new_list.len() >= 1
            &&& new_list == spec_append_bounded(
                old(st).records.infinite@,
                new_list.last(),
                INFINITE_HISTORY_LIMIT as nat,
            )
            &&& new_list.last().round == round
            &&& new_list.last().segment_level == (if segment == Difficulty::Easy {
                1u8
            } else if segment == Difficulty::Medium {
                2u8
            } else if segment == Difficulty::Hard {
                3u8
            } else {
                4u8
            })
            &&& new_list.last().segment_survival == (if segment == Difficulty::Impossible {
                spec_expert_survival_rounds(round)
            } else if segment == Difficulty::Hard {
                spec_hard_survival_rounds(round)
            } else {
                round
            })
            &&& new_list.last().time_secs == old(st).seconds_elapsed
            &&& new_list.last().date_label@ == date_label@
        }),
{
    let round = st.infinite_round;
    let segment = crate::infinite::classic_difficulty_for_round(round);
    let segment_level: u8 = match segment {
        Difficulty::Easy => 1,
        Difficulty::Medium => 2,
        Difficulty::Hard => 3,
        Difficulty::Impossible => 4,
        _ => 1,
    };
    let segment_survival: u32 = if segment == Difficulty::Impossible {
        crate::infinite::expert_survival_rounds(round)
    } else if segment == Difficulty::Hard {
        crate::infinite::hard_survival_rounds(round)
    } else {
        round
    };
    let candidate = InfiniteRecord {
        round,
        segment_level,
        segment_survival,
        time_secs: st.seconds_elapsed,
        date_label,
    };
    let ghost cand = candidate;
    append_bounded_infinite(&mut st.records.infinite, candidate, INFINITE_HISTORY_LIMIT);
    proof {
        lemma_append_bounded_last(old(st).records.infinite@, cand, INFINITE_HISTORY_LIMIT as nat);
    }
}

/// A date label as written into a record line: newlines become spaces.
pub open spec fn spec_sanitize_label(s: Seq<char>) -> Seq<char> {
    s.map_values(
        |c: char|
            if c == '\n' {
                ' '
            } else {
                c
            },
    )
}

/// Append a date label with newlines replaced by spaces.
fn push_sanitized_label(label: &str, out: &mut Vec<char>)
    ensures
        final(out)@ == old(out)@ + spec_sanitize_label(label@),
{
    let chars = str_to_chars(label);
    let mut i: usize = 0;
    proof {
        assert(out@ + spec_sanitize_label(label@.take(0)) =~= out@);
    }
    while i < chars.len()
        invariant
            i <= chars@.len(),
            chars@ == label@,
            out@ == old(out)@ + spec_sanitize_label(label@.take(i as int)),
        decreases chars@.len() - i,
    {
        let c = chars[i];
        if c == '\n' {
            out.push(' ');
        } else {
            out.push(c);
        }
        proof {
            assert(out@ =~= old(out)@ + spec_sanitize_label(label@.take(i + 1)));
        }
        i += 1;
    }
    proof {
        assert(label@.take(label@.len() as int) =~= label@);
    }
}

/// A classic or Tri record as one store line:
/// `level|rank|time|precision|date`.
pub open spec fn spec_encode_mode_record(r: ModeRecord) -> Seq<char> {
    spec_num_chars(r.level as nat) + seq!['|'] + r.rank.spec_as_str() + seq!['|'] + spec_num_chars(
        r.time_secs as nat,
    ) + seq!['|'] + spec_num_chars(r.precision_pct as nat) + seq!['|'] + spec_sanitize_label(
        r.date_label@,
    )
}

pub fn encode_mode_record(record: &ModeRecord) -> (r: String)
    ensures
        r@ == spec_encode_mode_record(*record),
{
    let mut out: Vec<char> = Vec::new();
    push_u64_chars(record.level as u64, &mut out);
    out.push('|');
    let mut rank_chars = str_to_chars(record.rank.as_str());
    out.append(&mut rank_chars);
    out.push('|');
    push_u64_chars(record.time_secs as u64, &mut out);
    out.push('|');
    push_u64_chars(record.precision_pct as u64, &mut out);
    out.push('|');
    push_sanitized_label(record.date_label.as_str(), &mut out);
    proof {
        assert(out@ =~= spec_encode_mode_record(*record));
    }
    chars_to_string(&out)
}

/// What reading a mode-record line gives: its first five `|`-separated
/// fields as level, rank, time, precision and date (later fields, if any,
/// are ignored).
pub open spec fn spec_parse_mode_record(s: Seq<char>) -> Option<ModeRecordV> {
    let parts = spec_split(s, '|');
    if parts.len() < 5 {
        None
    } else {
        match (spec_parse_u8(parts[0]), Rank::spec_from_str(parts[1]), spec_parse_u32(parts[2]), spec_parse_u8(parts[3])) {
            (Some(level), Some(rank), Some(time_secs), Some(precision_pct)) => Some(
                ModeRecordV { level, time_secs, precision_pct, rank, date_label: parts[4] },
            ),
            _ => None,
        }
    }
}

/// The logical content of a mode record.
pub struct ModeRecordV {
    pub level: u8,
    pub time_secs: u32,
    pub precision_pct: u8,
    pub rank: Rank,
    pub date_label: Seq<char>,
}

pub fn parse_mode_record(raw: &str) -> (r: Option<ModeRecord>)
    ensures
        match r {
            Some(rec) => spec_parse_mode_record(raw@) == Some(
                ModeRecordV {
                    level: rec.level,
                    time_secs: rec.time_secs,
                    precision_pct: rec.precision_pct,
                    rank: rec.rank,
                    date_label: rec.date_label@,
                },
            ),
            None => spec_parse_mode_record(raw@) is None,
        },
{
    let chars = str_to_chars(raw);
    let parts = split_chars(&chars, '|');
    proof {
        assert(char_views(parts@).len() == parts@.len());
    }
    if parts.len() < 5 {
        return None;
    }
    proof {
        assert(forall|i: int| 0 <= i < parts@.len() ==> char_views(parts@)[i] == (#[trigger] parts@[i])@);
    }
    let level = match parse_u8_chars(&parts[0]) {
        Some(v) => v,
        None => {
            return None;
        },
    };
    let rank_text = chars_to_string(&parts[1]);
    let rank = match Rank::from_str(rank_text.as_str()) {
        Some(v) => v,
        None => {
            return None;
        },
    };
    let time_secs = match parse_u32_chars(&parts[2]) {
        Some(v) => v,
        None => {
            return None;
        },
    };
    let precision_pct = match parse_u8_chars(&parts[3]) {
        Some(v) => v,
        None => {
            return None;
        },
    };
    let date_label = chars_to_string(&parts[4]);
    Some(ModeRecord { level, time_secs, precision_pct, rank, date_label })
}

/// An endless-mode record as one store line:
/// `round|segment_level|segment_survival|time|date`.
pub open spec fn spec_encode_infinite_record(r: InfiniteRecord) -> Seq<char> {
    spec_num_chars(r.round as nat) + seq!['|'] + spec_num_chars(r.segment_level as nat)
        + seq!['|'] + spec_num_chars(r.segment_survival as nat) + seq!['|'] + spec_num_chars(
        r.time_secs as nat,
    ) + seq!['|'] + spec_sanitize_label(r.date_label@)
}

pub fn encode_infinite_record(record: &InfiniteRecord) -> (r: String)
    ensures
        r@ == spec_encode_infinite_record(*record),
{
    let mut out: Vec<char> = Vec::new();
    push_u64_chars(record.round as u64, &mut out);
    out.push('|');
    push_u64_chars(record.segment_level as u64, &mut out);
    out.push('|');
    push_u64_chars(record.segment_survival as u64, &mut out);
    out.push('|');
    push_u64_chars(record.time_secs as u64, &mut out);
    out.push('|');
    push_sanitized_label(record.date_label.as_str(), &mut out);
    proof {
        assert(out@ =~= spec_encode_infinite_record(*record));
    }
    chars_to_string(&out)
}

/// The logical content of an endless-mode record.
pub struct InfiniteRecordV {
    pub round: u32,
    pub segment_level: u8,
    pub segment_survival: u32,
    pub time_secs: u32,
    pub date_label: Seq<char>,
}

/// What reading an endless-mode record line gives: its first five
/// `|`-separated fields (later fields, if any, are ignored).
pub open spec fn spec_parse_infinite_record(s: Seq<char>) -> Option<InfiniteRecordV> {
    let parts = spec_split(s, '|');
    if parts.len() < 5 {
        None
    } else {
        match (spec_parse_u32(parts[0]), spec_parse_u8(parts[1]), spec_parse_u32(parts[2]), spec_parse_u32(parts[3])) {
            (Some(round), Some(segment_level), Some(segment_survival), Some(time_secs)) => Some(
                InfiniteRecordV {
                    round,
                    segment_level,
                    segment_survival,
                    time_secs,
                    date_label: parts[4],
                },
            ),
            _ => None,
        }
    }
}

pub fn parse_infinite_record(raw: &str) -> (r: Option<InfiniteRecord>)
    ensures
        match r {
            Some(rec) => spec_parse_infinite_record(raw@) == Some(
                InfiniteRecordV {
                    round: rec.round,
                    segment_level: rec.segment_level,
                    segment_survival: rec.segment_survival,
                    time_secs: rec.time_secs,
                    date_label: rec.date_label@,
                },
            ),
            None => spec_parse_infinite_record(raw@) is None,
        },
{
    let chars = str_to_chars(raw);
    let parts = split_chars(&chars, '|');
    if parts.len() < 5 {
        return None;
    }
    proof {
        assert(forall|i: int| 0 <= i < parts@.len() ==> char_views(parts@)[i] == (#[trigger] parts@[i])@);
    }
    let round = match parse_u32_chars(&parts[0]) {
        Some(v) => v,
        None => {
            return None;
        },
    };
    let segment_level = match parse_u8_chars(&parts[1]) {
        Some(v) => v,
        None => {
            return None;
        },
    };
    let segment_survival = match parse_u32_chars(&parts[2]) {
        Some(v) => v,
        None => {
            return None;
        },
    };
    let time_secs = match parse_u32_chars(&parts[3]) {
        Some(v) => v,
        None => {
            return None;
        },
    };
    let date_label = chars_to_string(&parts[4]);
    Some(InfiniteRecord { round, segment_level, segment_survival, time_secs, date_label })
}

} // verus!
