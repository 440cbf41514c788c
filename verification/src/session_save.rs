use vstd::prelude::*;

use crate::board::fresh_board;
use crate::state::{Difficulty, Tile, TileStatus};
use crate::text::{
    find_char, parse_u32_chars, parse_u8_chars, parse_usize_chars, push_u64_chars,
    spec_find, spec_num_chars, spec_parse_u32, spec_parse_u8, spec_parse_usize, spec_split,
    spec_trim, split_chars, str_to_chars, subrange_chars, trim_chars,
};

verus! {

/// The on-disk schema version this codec reads and writes.
pub const SAVE_VERSION: u8 = 1;

/// The word that stands for a difficulty in the save file.
pub open spec fn spec_difficulty_code(difficulty: Difficulty) -> Seq<char> {
    match difficulty {
        Difficulty::Easy => "easy"@,
        Difficulty::Medium => "medium"@,
        Difficulty::Hard => "hard"@,
        Difficulty::Impossible => "impossible"@,
        Difficulty::Tri => "tri"@,
        Difficulty::RecallMode => "recall"@,
    }
}

pub fn difficulty_to_code(difficulty: Difficulty) -> (r: &'static str)
    ensures
        r@ == spec_difficulty_code(difficulty),
{
    match difficulty {
        Difficulty::Easy => "easy",
        Difficulty::Medium => "medium",
        Difficulty::Hard => "hard",
        Difficulty::Impossible => "impossible",
        Difficulty::Tri => "tri",
        Difficulty::RecallMode => "recall",
    }
}

/// The difficulty a save-file word stands for, if any.
pub open spec fn spec_difficulty_from_code(s: Seq<char>) -> Option<Difficulty> {
    if s == "easy"@ {
        Some(Difficulty::Easy)
    } else if s == "medium"@ {
        Some(Difficulty::Medium)
    } else if s == "hard"@ {
        Some(Difficulty::Hard)
    } else if s == "impossible"@ {
        Some(Difficulty::Impossible)
    } else if s == "tri"@ {
        Some(Difficulty::Tri)
    } else if s == "recall"@ {
        Some(Difficulty::RecallMode)
    } else {
        None
    }
}

/// Whether two character vectors/literals hold the same characters.
fn chars_eq_lit(v: &Vec<char>, lit: &str) -> (r: bool)
    ensures
        r == (v@ == lit@),
{
    let lit_chars = str_to_chars(lit);
    if v.len() != lit_chars.len() {
        proof {
            assert(v@.len() != lit@.len());
        }
        return false;
    }
    let mut i: usize = 0;
    while i < v.len()
        invariant
            i <= v@.len(),
            v@.len() == lit_chars@.len(),
            lit_chars@ == lit@,
            forall|k: int| 0 <= k < i ==> v@[k] == lit@[k],
        decreases v@.len() - i,
    {
        if v[i] != lit_chars[i] {
            return false;
        }
        i += 1;
    }
    proof {
        assert(v@ =~= lit@);
    }
    true
}

pub fn difficulty_from_code(code: &Vec<char>) -> (r: Option<Difficulty>)
    ensures
        r == spec_difficulty_from_code(code@),
{
    if chars_eq_lit(code, "easy") {
        Some(Difficulty::Easy)
    } else if chars_eq_lit(code, "medium") {
        Some(Difficulty::Medium)
    } else if chars_eq_lit(code, "hard") {
        Some(Difficulty::Hard)
    } else if chars_eq_lit(code, "impossible") {
        Some(Difficulty::Impossible)
    } else if chars_eq_lit(code, "tri") {
        Some(Difficulty::Tri)
    } else if chars_eq_lit(code, "recall") {
        Some(Difficulty::RecallMode)
    } else {
        None
    }
}

/// How one character is written in an escaped value: backslash, newline and
/// the field separator get a backslash escape, everything else stands as is.
pub open spec fn esc_char(c: char) -> Seq<char> {
    if c == '\\' {
        seq!['\\', '\\']
    } else if c == '\n' {
        seq!['\\', 'n']
    } else if c == '|' {
        seq!['\\', '|']
    } else {
        seq![c]
    }
}

/// The escaped form of a value.
pub open spec fn spec_escape(s: Seq<char>) -> Seq<char>
    decreases s.len(),
{
    if s.len() == 0 {
        Seq::empty()
    } else {
        esc_char(s[0]) + spec_escape(s.drop_first())
    }
}

/// What reading an escaped value gives back: a backslash escape turns back
/// into its character (unknown escapes and a trailing backslash are kept
/// literally).
pub open spec fn spec_unescape(s: Seq<char>) -> Seq<char>
    decreases s.len(),
{
    if s.len() == 0 {
        Seq::empty()
    } else if s[0] == '\\' {
        if s.len() == 1 {
            seq!['\\']
        } else {
            let c = s[1];
            let expansion = if c == 'n' {
                seq!['\n']
            } else if c == '|' {
                seq!['|']
            } else if c == '\\' {
                seq!['\\']
            } else {
                seq!['\\', c]
            };
            expansion + spec_unescape(s.skip(2))
        }
    } else {
        seq![s[0]] + spec_unescape(s.drop_first())
    }
}

/// Escaping distributes over concatenation.
pub proof fn lemma_escape_concat(a: Seq<char>, b: Seq<char>)
    ensures
        spec_escape(a + b) == spec_escape(a) + spec_escape(b),
    decreases a.len(),
{
    if a.len() == 0 {
        assert(a + b =~= b);
        assert(spec_escape(a) + spec_escape(b) =~= spec_escape(b));
    } else {
        lemma_escape_concat(a.drop_first(), b);
        assert((a + b).drop_first() =~= a.drop_first() + b);
        assert((a + b)[0] == a[0]);
        assert(spec_escape(a + b) == esc_char(a[0]) + (spec_escape(a.drop_first()) + spec_escape(
            b,
        )));
        assert(esc_char(a[0]) + (spec_escape(a.drop_first()) + spec_escape(b)) =~= (esc_char(a[0])
            + spec_escape(a.drop_first())) + spec_escape(b));
    }
}

/// Escaped values never contain a newline.
pub proof fn lemma_escape_no_newline(s: Seq<char>)
    ensures
        forall|i: int| 0 <= i < spec_escape(s).len() ==> (#[trigger] spec_escape(s)[i]) != '\n',
    decreases s.len(),
{
    if s.len() > 0 {
        lemma_escape_no_newline(s.drop_first());
        assert forall|i: int|
            0 <= i < spec_escape(s).len() implies (#[trigger] spec_escape(s)[i]) != '\n' by {
            let head = esc_char(s[0]);
            if i >= head.len() {
                assert(spec_escape(s)[i] == spec_escape(s.drop_first())[i - head.len()]);
            }
        }
    }
}

/// Reading back an escaped value gives the original.
pub proof fn lemma_unescape_escape(s: Seq<char>)
    ensures
        spec_unescape(spec_escape(s)) == s,
    decreases s.len(),
{
    if s.len() == 0 {
    } else {
        lemma_unescape_escape(s.drop_first());
        let head = esc_char(s[0]);
        let e = spec_escape(s);
        assert(e == head + spec_escape(s.drop_first()));
        if s[0] == '\\' || s[0] == '\n' || s[0] == '|' {
            assert(head.len() == 2);
            assert(e[0] == '\\');
            assert(e.len() >= 2);
            assert(e[1] == head[1]);
            assert(e.skip(2) =~= spec_escape(s.drop_first()));
            assert(spec_unescape(e) =~= seq![s[0]] + s.drop_first());
            assert(seq![s[0]] + s.drop_first() =~= s);
        } else {
            assert(head.len() == 1);
            assert(e[0] == s[0]);
            assert(e[0] != '\\');
            assert(e.drop_first() =~= spec_escape(s.drop_first()));
            assert(spec_unescape(e) =~= seq![s[0]] + s.drop_first());
            assert(seq![s[0]] + s.drop_first() =~= s);
        }
    }
}

/// Append the escaped form of `s` to `out`.
pub fn push_escaped(s: &Vec<char>, out: &mut Vec<char>)
    ensures
        final(out)@ == old(out)@ + spec_escape(s@),
{
    let mut i: usize = 0;
    proof {
        assert(spec_escape(s@.take(0)) =~= Seq::<char>::empty());
        assert(out@ + spec_escape(s@.take(0)) =~= out@);
    }
    while i < s.len()
        invariant
            i <= s@.len(),
            out@ == old(out)@ + spec_escape(s@.take(i as int)),
        decreases s@.len() - i,
    {
        let c = s[i];
        if c == '\\' {
            out.push('\\');
            out.push('\\');
        } else if c == '\n' {
            out.push('\\');
            out.push('n');
        } else if c == '|' {
            out.push('\\');
            out.push('|');
        } else {
            out.push(c);
        }
        proof {
            assert(s@.take(i + 1) =~= s@.take(i as int) + seq![s@[i as int]]);
            lemma_escape_concat(s@.take(i as int), seq![s@[i as int]]);
            assert(seq![s@[i as int]].drop_first() =~= Seq::<char>::empty());
            assert(spec_escape(seq![s@[i as int]]) == esc_char(s@[i as int]) + spec_escape(
                seq![s@[i as int]].drop_first(),
            ));
            assert(spec_escape(seq![s@[i as int]]) =~= esc_char(s@[i as int]));
            assert(out@ =~= old(out)@ + spec_escape(s@.take(i + 1)));
        }
        i += 1;
    }
    proof {
        assert(s@.take(s@.len() as int) =~= s@);
    }
}

/// Read an escaped value back.
pub fn unescape_chars(s: &Vec<char>) -> (r: Vec<char>)
    ensures
        r@ == spec_unescape(s@),
{
    let mut out: Vec<char> = Vec::new();
    let mut i: usize = 0;
    proof {
        assert(s@.skip(0) =~= s@);
        assert(out@ + spec_unescape(s@) =~= spec_unescape(s@));
    }
    while i < s.len()
        invariant
            i <= s@.len(),
            spec_unescape(s@) == out@ + spec_unescape(s@.skip(i as int)),
        decreases s@.len() - i,
    {
        let c = s[i];
        if c == '\\' {
            if i + 1 < s.len() {
                let c2 = s[i + 1];
                proof {
                    assert(s@.skip(i as int)[0] == c);
                    assert(s@.skip(i as int)[1] == c2);
                    assert(s@.skip(i as int).len() >= 2);
                    assert(s@.skip(i as int).skip(2) =~= s@.skip(i + 2));
                }
                if c2 == 'n' {
                    out.push('\n');
                } else if c2 == '|' {
                    out.push('|');
                } else if c2 == '\\' {
                    out.push('\\');
                } else {
                    out.push('\\');
                    out.push(c2);
                }
                proof {
                    assert(spec_unescape(s@) =~= out@ + spec_unescape(s@.skip(i + 2)));
                }
                i += 2;
            } else {
                proof {
                    assert(s@.skip(i as int).len() == 1);
                    assert(s@.skip(i as int)[0] == '\\');
                    assert(s@.skip(i + 1) =~= Seq::<char>::empty());
                }
                out.push('\\');
                proof {
                    assert(spec_unescape(s@) =~= out@ + spec_unescape(s@.skip(i + 1)));
                }
                i += 1;
            }
        } else {
            proof {
                assert(s@.skip(i as int)[0] == c);
                assert(s@.skip(i as int).drop_first() =~= s@.skip(i + 1));
            }
            out.push(c);
            proof {
                assert(spec_unescape(s@) =~= out@ + spec_unescape(s@.skip(i + 1)));
            }
            i += 1;
        }
    }
    proof {
        assert(s@.skip(s@.len() as int) =~= Seq::<char>::empty());
        assert(out@ =~= spec_unescape(s@));
    }
    out
}

/// Position of the first separator that is not behind a backslash, reading
/// escape pairs as units; -1 when there is none.
pub open spec fn spec_sep_index(s: Seq<char>) -> int
    decreases s.len(),
{
    if s.len() == 0 {
        -1
    } else if s[0] == '\\' {
        if s.len() == 1 {
            -1
        } else {
            let r = spec_sep_index(s.skip(2));
            if r == -1 {
                -1
            } else {
                r + 2
            }
        }
    } else if s[0] == '|' {
        0
    } else {
        let r = spec_sep_index(s.drop_first());
        if r == -1 {
            -1
        } else {
            r + 1
        }
    }
}

/// The separator `spec_sep_index` points at is in range.
pub proof fn lemma_sep_index_range(s: Seq<char>)
    ensures
        spec_sep_index(s) == -1 || (0 <= spec_sep_index(s) < s.len() && s[spec_sep_index(s)]
            == '|'),
    decreases s.len(),
{
    if s.len() == 0 {
    } else if s[0] == '\\' {
        if s.len() > 1 {
            lemma_sep_index_range(s.skip(2));
            if spec_sep_index(s.skip(2)) != -1 {
                assert(s[spec_sep_index(s.skip(2)) + 2] == s.skip(2)[spec_sep_index(s.skip(2))]);
            }
        }
    } else if s[0] == '|' {
    } else {
        lemma_sep_index_range(s.drop_first());
        if spec_sep_index(s.drop_first()) != -1 {
            assert(s[spec_sep_index(s.drop_first()) + 1] == s.drop_first()[spec_sep_index(
                s.drop_first(),
            )]);
        }
    }
}

/// Split a raw field at the first unescaped separator: the (still escaped)
/// left part and the raw right part.
pub open spec fn spec_split_escaped_pair(s: Seq<char>) -> Option<(Seq<char>, Seq<char>)> {
    let f = spec_sep_index(s);
    if f == -1 {
        None
    } else {
        Some((s.take(f), s.skip(f + 1)))
    }
}

/// Find the first unescaped separator.
pub fn sep_index_chars(s: &Vec<char>) -> (r: Option<usize>)
    ensures
        match r {
            Some(f) => spec_sep_index(s@) == f,
            None => spec_sep_index(s@) == -1,
        },
{
    let mut i: usize = 0;
    proof {
        assert(s@.skip(0) =~= s@);
    }
    while i < s.len()
        invariant
            i <= s@.len(),
            spec_sep_index(s@) == (if spec_sep_index(s@.skip(i as int)) == -1 {
                -1
            } else {
                spec_sep_index(s@.skip(i as int)) + i
            }),
        decreases s@.len() - i,
    {
        let c = s[i];
        proof {
            assert(s@.skip(i as int)[0] == c);
        }
        if c == '\\' {
            if i + 1 >= s.len() {
                proof {
                    assert(s@.skip(i as int).len() == 1);
                }
                return None;
            }
            proof {
                assert(s@.skip(i as int).len() >= 2);
                assert(s@.skip(i as int).skip(2) =~= s@.skip(i + 2));
                lemma_sep_index_range(s@.skip(i + 2));
                assert(spec_sep_index(s@.skip(i as int)) == (if spec_sep_index(s@.skip(i + 2))
                    == -1 {
                    -1int
                } else {
                    spec_sep_index(s@.skip(i + 2)) + 2
                }));
            }
            i += 2;
        } else if c == '|' {
            proof {
                assert(spec_sep_index(s@.skip(i as int)) == 0);
            }
            return Some(i);
        } else {
            proof {
                assert(s@.skip(i as int).drop_first() =~= s@.skip(i + 1));
                lemma_sep_index_range(s@.skip(i + 1));
                assert(spec_sep_index(s@.skip(i as int)) == (if spec_sep_index(s@.skip(i + 1))
                    == -1 {
                    -1int
                } else {
                    spec_sep_index(s@.skip(i + 1)) + 1
                }));
            }
            i += 1;
        }
    }
    proof {
        assert(s@.skip(s@.len() as int).len() == 0);
    }
    None
}

/// Split a raw field at the first unescaped separator.
pub fn split_escaped_pair(s: &Vec<char>) -> (r: Option<(Vec<char>, Vec<char>)>)
    ensures
        match r {
            Some(pair) => spec_split_escaped_pair(s@) == Some((pair.0@, pair.1@)),
            None => spec_split_escaped_pair(s@) is None,
        },
{
    let f = match sep_index_chars(s) {
        Some(f) => f,
        None => {
            return None;
        },
    };
    let n = s.len();
    proof {
        lemma_sep_index_range(s@);
        assert(f < n);
    }
    let mut left: Vec<char> = Vec::new();
    let mut i: usize = 0;
    while i < f
        invariant
            i <= f < s@.len(),
            left@ == s@.take(f as int).take(i as int),
        decreases f - i,
    {
        left.push(s[i]);
        proof {
            assert(left@ =~= s@.take(f as int).take(i + 1));
        }
        i += 1;
    }
    proof {
        assert(s@.take(f as int).take(f as int) =~= s@.take(f as int));
    }
    let mut right: Vec<char> = Vec::new();
    let mut j: usize = f + 1;
    while j < s.len()
        invariant
            f + 1 <= j <= s@.len(),
            right@ == s@.skip(f + 1).take(j - f - 1),
        decreases s@.len() - j,
    {
        right.push(s[j]);
        proof {
            assert(right@ =~= s@.skip(f + 1).take(j + 1 - f - 1));
        }
        j += 1;
    }
    proof {
        assert(s@.skip(f + 1).take(s@.len() - f - 1) =~= s@.skip(f + 1));
    }
    Some((left, right))
}

/// The one-letter code of a tile status in the save file.
pub open spec fn spec_status_char(status: TileStatus) -> char {
    match status {
        TileStatus::Hidden => 'H',
        TileStatus::Flipped => 'F',
        TileStatus::Matched => 'M',
    }
}

/// A tile's line value: its status letter, the separator, and its escaped
/// symbol.
pub open spec fn spec_encode_tile(status: TileStatus, value: Seq<char>) -> Seq<char> {
    seq![spec_status_char(status)] + seq!['|'] + spec_escape(value)
}

/// What reading a tile field back gives: the status letter (alone) before
/// the first unescaped separator, and the unescaped symbol after it.
pub open spec fn spec_parse_tile(s: Seq<char>) -> Option<(TileStatus, Seq<char>)> {
    match spec_split_escaped_pair(s) {
        None => None,
        Some(pair) => {
            let status_code = pair.0;
            let value_code = pair.1;
            if status_code == seq!['H'] {
                Some((TileStatus::Hidden, spec_unescape(value_code)))
            } else if status_code == seq!['F'] {
                Some((TileStatus::Flipped, spec_unescape(value_code)))
            } else if status_code == seq!['M'] {
                Some((TileStatus::Matched, spec_unescape(value_code)))
            } else {
                None
            }
        },
    }
}

/// Append a tile's field encoding to `out`.
pub fn push_encoded_tile(tile: &Tile, out: &mut Vec<char>)
    ensures
        final(out)@ == old(out)@ + spec_encode_tile(tile.status, tile.value@),
{
    match tile.status {
        TileStatus::Hidden => out.push('H'),
        TileStatus::Flipped => out.push('F'),
        TileStatus::Matched => out.push('M'),
    }
    out.push('|');
    let value_chars = str_to_chars(tile.value.as_str());
    push_escaped(&value_chars, out);
    proof {
        assert(final(out)@ =~= old(out)@ + spec_encode_tile(tile.status, tile.value@));
    }
}

/// Read a tile field back.
pub fn parse_tile(s: &Vec<char>) -> (r: Option<Tile>)
    ensures
        match r {
            Some(t) => spec_parse_tile(s@) == Some((t.status, t.value@)),
            None => spec_parse_tile(s@) is None,
        },
{
    let (status_code, value_code) = match split_escaped_pair(s) {
        Some(pair) => pair,
        None => {
            return None;
        },
    };
    let status = if chars_eq_lit(&status_code, "H") {
        TileStatus::Hidden
    } else if chars_eq_lit(&status_code, "F") {
        TileStatus::Flipped
    } else if chars_eq_lit(&status_code, "M") {
        TileStatus::Matched
    } else {
        proof {
            reveal_strlit("H");
            reveal_strlit("F");
            reveal_strlit("M");
            assert("H"@ =~= seq!['H']);
            assert("F"@ =~= seq!['F']);
            assert("M"@ =~= seq!['M']);
            assert(status_code@ != seq!['H'] && status_code@ != seq!['F'] && status_code@
                != seq!['M']);
        }
        return None;
    };
    proof {
        reveal_strlit("H");
        reveal_strlit("F");
        reveal_strlit("M");
        assert("H"@ =~= seq!['H']);
        assert("F"@ =~= seq!['F']);
        assert("M"@ =~= seq!['M']);
    }
    let value_chars = unescape_chars(&value_code);
    let value = crate::text::chars_to_string(&value_chars);
    Some(Tile { value, status })
}

/// A tile field reads back to exactly the status and symbol it was written
/// from.
pub proof fn lemma_tile_round_trip(status: TileStatus, value: Seq<char>)
    ensures
        spec_parse_tile(spec_encode_tile(status, value)) == Some((status, value)),
{
    let e = spec_encode_tile(status, value);
    let sc = spec_status_char(status);
    assert(e[0] == sc);
    assert(sc != '\\' && sc != '|');
    assert(e.drop_first() =~= seq!['|'] + spec_escape(value));
    assert(e.drop_first()[0] == '|');
    assert(spec_sep_index(e.drop_first()) == 0);
    assert(spec_sep_index(e) == 1);
    assert(e.take(1) =~= seq![sc]);
    assert(e.skip(2) =~= spec_escape(value));
    lemma_unescape_escape(value);
}

/// The logical content of a saved run, as the codec sees it.
#[verifier::ext_equal]
pub struct SavedRunV {
    pub difficulty: Difficulty,
    pub tri_level: u8,
    pub recall_level: u8,
    pub infinite_round: u32,
    pub seconds_elapsed: u32,
    pub run_mismatches: u32,
    pub run_matches: u32,
    pub impossible_mismatch_count: u8,
    pub impossible_punish_stage: u8,
    pub impossible_last_first_index: Option<usize>,
    pub impossible_same_first_streak: u8,
    pub flipped_indices: Seq<usize>,
    pub tiles: Seq<(TileStatus, Seq<char>)>,
}

/// A snapshot of one in-progress round, sufficient to resume it exactly.
#[derive(Clone, Debug)]
pub struct SavedRun {
    pub difficulty: Difficulty,
    pub tri_level: u8,
    pub recall_level: u8,
    pub infinite_round: u32,
    pub seconds_elapsed: u32,
    pub run_mismatches: u32,
    pub run_matches: u32,
    pub impossible_mismatch_count: u8,
    pub impossible_punish_stage: u8,
    pub impossible_last_first_index: Option<usize>,
    pub impossible_same_first_streak: u8,
    pub flipped_indices: Vec<usize>,
    pub tiles: Vec<Tile>,
}

impl SavedRun {
    /// The logical content of this snapshot.
    pub open spec fn view_v(self) -> SavedRunV {
        SavedRunV {
            difficulty: self.difficulty,
            tri_level: self.tri_level,
            recall_level: self.recall_level,
            infinite_round: self.infinite_round,
            seconds_elapsed: self.seconds_elapsed,
            run_mismatches: self.run_mismatches,
            run_matches: self.run_matches,
            impossible_mismatch_count: self.impossible_mismatch_count,
            impossible_punish_stage: self.impossible_punish_stage,
            impossible_last_first_index: self.impossible_last_first_index,
            impossible_same_first_streak: self.impossible_same_first_streak,
            flipped_indices: self.flipped_indices@,
            tiles: self.tiles@.map_values(|t: Tile| (t.status, t.value@)),
        }
    }
}

/// One key-value line of the save file, newline included.
pub open spec fn spec_kv_line(key: Seq<char>, value: Seq<char>) -> Seq<char> {
    key + seq!['='] + value + seq!['\n']
}

/// The comma-separated notation of the flipped-index list.
pub open spec fn spec_index_list(idxs: Seq<usize>) -> Seq<char>
    decreases idxs.len(),
{
    if idxs.len() == 0 {
        Seq::empty()
    } else if idxs.len() == 1 {
        spec_num_chars(idxs[0] as nat)
    } else {
        spec_index_list(idxs.drop_last()) + seq![','] + spec_num_chars(idxs.last() as nat)
    }
}

/// The tile lines of the save file, one per tile, newlines included.
pub open spec fn spec_tile_lines(tiles: Seq<(TileStatus, Seq<char>)>) -> Seq<char>
    decreases tiles.len(),
{
    if tiles.len() == 0 {
        Seq::empty()
    } else {
        spec_tile_lines(tiles.drop_last()) + spec_kv_line(
            "tile"@,
            spec_encode_tile(tiles.last().0, tiles.last().1),
        )
    }
}

/// The whole text of the save file for a run.
pub open spec fn spec_serialize_saved_run(v: SavedRunV) -> Seq<char> {
    spec_kv_line("version"@, spec_num_chars(SAVE_VERSION as nat)) + spec_kv_line(
        "started"@,
        "1"@,
    ) + spec_kv_line("difficulty"@, spec_difficulty_code(v.difficulty)) + spec_kv_line(
        "tri_level"@,
        spec_num_chars(v.tri_level as nat),
    ) + spec_kv_line("recall_level"@, spec_num_chars(v.recall_level as nat)) + spec_kv_line(
        "infinite_round"@,
        spec_num_chars(v.infinite_round as nat),
    ) + spec_kv_line("seconds_elapsed"@, spec_num_chars(v.seconds_elapsed as nat)) + spec_kv_line(
        "run_mismatches"@,
        spec_num_chars(v.run_mismatches as nat),
    ) + spec_kv_line("run_matches"@, spec_num_chars(v.run_matches as nat)) + spec_kv_line(
        "impossible_mismatch_count"@,
        spec_num_chars(v.impossible_mismatch_count as nat),
    ) + spec_kv_line(
        "impossible_punish_stage"@,
        spec_num_chars(v.impossible_punish_stage as nat),
    ) + spec_kv_line(
        "impossible_last_first_index"@,
        match v.impossible_last_first_index {
            None => "-"@,
            Some(i) => spec_num_chars(i as nat),
        },
    ) + spec_kv_line(
        "impossible_same_first_streak"@,
        spec_num_chars(v.impossible_same_first_streak as nat),
    ) + spec_kv_line("flipped_indices"@, spec_index_list(v.flipped_indices)) + spec_tile_lines(
        v.tiles,
    )
}

/// Append a string slice's characters to `out`.
fn push_str_chars(out: &mut Vec<char>, s: &str)
    ensures
        final(out)@ == old(out)@ + s@,
{
    let mut v = str_to_chars(s);
    out.append(&mut v);
}

/// Append the line `key=value` for a literal value.
fn push_line_lit(out: &mut Vec<char>, key: &str, value: &str)
    ensures
        final(out)@ == old(out)@ + spec_kv_line(key@, value@),
{
    push_str_chars(out, key);
    out.push('=');
    push_str_chars(out, value);
    out.push('\n');
    proof {
        assert(final(out)@ =~= old(out)@ + spec_kv_line(key@, value@));
    }
}

/// Append the line `key=value` for a numeric value.
fn push_line_u64(out: &mut Vec<char>, key: &str, value: u64)
    ensures
        final(out)@ == old(out)@ + spec_kv_line(key@, spec_num_chars(value as nat)),
{
    push_str_chars(out, key);
    out.push('=');
    push_u64_chars(value, out);
    out.push('\n');
    proof {
        assert(final(out)@ =~= old(out)@ + spec_kv_line(key@, spec_num_chars(value as nat)));
    }
}

/// Write a run snapshot as the save file's text.
pub fn serialize_saved_run(run: &SavedRun) -> (r: String)
    ensures
        r@ == spec_serialize_saved_run(run.view_v()),
{
    let mut out: Vec<char> = Vec::new();
    push_line_u64(&mut out, "version", SAVE_VERSION as u64);
    push_line_lit(&mut out, "started", "1");
    push_line_lit(&mut out, "difficulty", difficulty_to_code(run.difficulty));
    push_line_u64(&mut out, "tri_level", run.tri_level as u64);
    push_line_u64(&mut out, "recall_level", run.recall_level as u64);
    push_line_u64(&mut out, "infinite_round", run.infinite_round as u64);
    push_line_u64(&mut out, "seconds_elapsed", run.seconds_elapsed as u64);
    push_line_u64(&mut out, "run_mismatches", run.run_mismatches as u64);
    push_line_u64(&mut out, "run_matches", run.run_matches as u64);
    push_line_u64(&mut out, "impossible_mismatch_count", run.impossible_mismatch_count as u64);
    push_line_u64(&mut out, "impossible_punish_stage", run.impossible_punish_stage as u64);
    match run.impossible_last_first_index {
        None => push_line_lit(&mut out, "impossible_last_first_index", "-"),
        Some(i) => push_line_u64(&mut out, "impossible_last_first_index", i as u64),
    }
    push_line_u64(&mut out, "impossible_same_first_streak", run.impossible_same_first_streak as u64);

    push_str_chars(&mut out, "flipped_indices");
    out.push('=');
    let ghost idxs = run.flipped_indices@;
    let mut j: usize = 0;
    let ghost list_start = out@;
    while j < run.flipped_indices.len()
        invariant
            j <= idxs.len(),
            idxs == run.flipped_indices@,
            out@ == list_start + spec_index_list(idxs.take(j as int)),
        decreases idxs.len() - j,
    {
        if j > 0 {
            out.push(',');
        }
        push_u64_chars(run.flipped_indices[j] as u64, &mut out);
        proof {
            let pre = idxs.take(j as int);
            let now = idxs.take(j + 1);
            assert(now.drop_last() =~= pre);
            assert(now.last() == idxs[j as int]);
            if j == 0 {
                assert(out@ =~= list_start + spec_index_list(now));
            } else {
                assert(spec_index_list(now) == spec_index_list(pre) + seq![','] + spec_num_chars(
                    idxs[j as int] as nat,
                ));
                assert(out@ =~= list_start + spec_index_list(now));
            }
        }
        j += 1;
    }
    proof {
        assert(idxs.take(idxs.len() as int) =~= idxs);
    }
    out.push('\n');

    let ghost tiles_v = run.tiles@.map_values(|t: Tile| (t.status, t.value@));
    let ghost tiles_start = out@;
    proof {
        assert(tiles_v.take(0) =~= Seq::<(TileStatus, Seq<char>)>::empty());
        assert(tiles_start + spec_tile_lines(tiles_v.take(0)) =~= tiles_start);
    }
    let mut k: usize = 0;
    while k < run.tiles.len()
        invariant
            k <= run.tiles@.len(),
            tiles_v == run.tiles@.map_values(|t: Tile| (t.status, t.value@)),
            tiles_v.len() == run.tiles@.len(),
            out@ == tiles_start + spec_tile_lines(tiles_v.take(k as int)),
        decreases run.tiles@.len() - k,
    {
        push_str_chars(&mut out, "tile");
        out.push('=');
        push_encoded_tile(&run.tiles[k], &mut out);
        out.push('\n');
        proof {
            let pre = tiles_v.take(k as int);
            let now = tiles_v.take(k + 1);
            assert(now.drop_last() =~= pre);
            assert(now.last() == tiles_v[k as int]);
            assert(tiles_v[k as int] == (run.tiles@[k as int].status, run.tiles@[k as int].value@));
            assert(spec_tile_lines(now) == spec_tile_lines(pre) + spec_kv_line(
                "tile"@,
                spec_encode_tile(now.last().0, now.last().1),
            ));
            assert(out@ =~= tiles_start + spec_tile_lines(now));
        }
        k += 1;
    }
    proof {
        assert(tiles_v.take(tiles_v.len() as int) =~= tiles_v);
        assert(out@ =~= spec_serialize_saved_run(run.view_v()));
    }
    crate::text::chars_to_string(&out)
}

/// Clamp a parsed level into the 1 to 4 range.
pub open spec fn spec_clamp14(v: u8) -> u8 {
    if v < 1 {
        1
    } else if v > 4 {
        4
    } else {
        v
    }
}

/// Lift a parsed round to at least 1.
pub open spec fn spec_max1(v: u32) -> u32 {
    if v == 0 {
        1
    } else {
        v
    }
}

/// The parsed flipped-index list: empty parts are skipped, everything else
/// must be a number.
pub open spec fn spec_parse_index_parts(parts: Seq<Seq<char>>) -> Option<Seq<usize>>
    decreases parts.len(),
{
    if parts.len() == 0 {
        Some(Seq::empty())
    } else {
        let head = spec_trim(parts[0]);
        match spec_parse_index_parts(parts.drop_first()) {
            None => None,
            Some(rest) => {
                if head.len() == 0 {
                    Some(rest)
                } else {
                    match spec_parse_usize(head) {
                        None => None,
                        Some(v) => Some(seq![v] + rest),
                    }
                }
            },
        }
    }
}

/// The parsed flipped-index field: an empty (after trimming) value is the
/// empty list, otherwise the comma-separated parts.
pub open spec fn spec_parse_flipped(value: Seq<char>) -> Option<Seq<usize>> {
    let t = spec_trim(value);
    if t.len() == 0 {
        Some(Seq::empty())
    } else {
        spec_parse_index_parts(spec_split(t, ','))
    }
}

/// The fields gathered while reading a save file.
#[verifier::ext_equal]
pub struct RunAcc {
    pub version: Option<u8>,
    pub started: bool,
    pub difficulty: Option<Difficulty>,
    pub tri_level: u8,
    pub recall_level: u8,
    pub infinite_round: u32,
    pub seconds_elapsed: u32,
    pub run_mismatches: u32,
    pub run_matches: u32,
    pub impossible_mismatch_count: u8,
    pub impossible_punish_stage: u8,
    pub impossible_last_first_index: Option<usize>,
    pub impossible_same_first_streak: u8,
    pub flipped_indices: Seq<usize>,
    pub tiles: Seq<(TileStatus, Seq<char>)>,
}

/// The defaults a save file starts from.
pub open spec fn spec_init_acc() -> RunAcc {
    RunAcc {
        version: None,
        started: false,
        difficulty: None,
        tri_level: 3,
        recall_level: 2,
        infinite_round: 1,
        seconds_elapsed: 0,
        run_mismatches: 0,
        run_matches: 0,
        impossible_mismatch_count: 0,
        impossible_punish_stage: 0,
        impossible_last_first_index: None,
        impossible_same_first_streak: 0,
        flipped_indices: Seq::empty(),
        tiles: Seq::empty(),
    }
}

/// How one line of the save file changes the gathered fields. A line
/// without an equals sign, or with an unknown key, is ignored; a known key
/// whose value does not parse fails the whole file (except `version`,
/// `started` and `difficulty`, whose failures only leave the field unset).
pub open spec fn spec_apply_line(acc: RunAcc, line: Seq<char>) -> Option<RunAcc> {
    let f = spec_find(line, '=');
    if !(0 <= f < line.len()) {
        Some(acc)
    } else {
        let key = line.take(f);
        let value = line.skip(f + 1);
        if key == "version"@ {
            Some(RunAcc { version: spec_parse_u8(value), ..acc })
        } else if key == "started"@ {
            Some(RunAcc { started: spec_trim(value) == "1"@, ..acc })
        } else if key == "difficulty"@ {
            Some(RunAcc { difficulty: spec_difficulty_from_code(spec_trim(value)), ..acc })
        } else if key == "tri_level"@ {
            match spec_parse_u8(value) {
                None => None,
                Some(v) => Some(RunAcc { tri_level: spec_clamp14(v), ..acc }),
            }
        } else if key == "recall_level"@ {
            match spec_parse_u8(value) {
                None => None,
                Some(v) => Some(RunAcc { recall_level: spec_clamp14(v), ..acc }),
            }
        } else if key == "infinite_round"@ {
            match spec_parse_u32(value) {
                None => None,
                Some(v) => Some(RunAcc { infinite_round: spec_max1(v), ..acc }),
            }
        } else if key == "seconds_elapsed"@ {
            match spec_parse_u32(value) {
                None => None,
                Some(v) => Some(RunAcc { seconds_elapsed: v, ..acc }),
            }
        } else if key == "run_mismatches"@ {
            match spec_parse_u32(value) {
                None => None,
                Some(v) => Some(RunAcc { run_mismatches: v, ..acc }),
            }
        } else if key == "run_matches"@ {
            match spec_parse_u32(value) {
                None => None,
                Some(v) => Some(RunAcc { run_matches: v, ..acc }),
            }
        } else if key == "impossible_mismatch_count"@ {
            match spec_parse_u8(value) {
                None => None,
                Some(v) => Some(RunAcc { impossible_mismatch_count: v, ..acc }),
            }
        } else if key == "impossible_punish_stage"@ {
            match spec_parse_u8(value) {
                None => None,
                Some(v) => Some(RunAcc { impossible_punish_stage: v, ..acc }),
            }
        } else if key == "impossible_last_first_index"@ {
            if spec_trim(value) == "-"@ {
                Some(RunAcc { impossible_last_first_index: None, ..acc })
            } else {
                match spec_parse_usize(value) {
                    None => None,
                    Some(v) => Some(RunAcc { impossible_last_first_index: Some(v), ..acc }),
                }
            }
        } else if key == "impossible_same_first_streak"@ {
            match spec_parse_u8(value) {
                None => None,
                Some(v) => Some(RunAcc { impossible_same_first_streak: v, ..acc }),
            }
        } else if key == "flipped_indices"@ {
            match spec_parse_flipped(value) {
                None => None,
                Some(l) => Some(RunAcc { flipped_indices: l, ..acc }),
            }
        } else if key == "tile"@ {
            match spec_parse_tile(value) {
                None => None,
                Some(t) => Some(RunAcc { tiles: acc.tiles.push(t), ..acc }),
            }
        } else {
            Some(acc)
        }
    }
}

/// Folding the line reader over a list of lines.
pub open spec fn spec_parse_lines(acc: RunAcc, lines: Seq<Seq<char>>) -> Option<RunAcc>
    decreases lines.len(),
{
    if lines.len() == 0 {
        Some(acc)
    } else {
        match spec_apply_line(acc, lines[0]) {
            None => None,
            Some(a) => spec_parse_lines(a, lines.drop_first()),
        }
    }
}

/// What reading a whole save file gives: the gathered fields, provided no
/// known field was malformed, the schema version matches, the run was
/// started, and a difficulty was named.
pub open spec fn spec_parse_saved_run(s: Seq<char>) -> Option<SavedRunV> {
    match spec_parse_lines(spec_init_acc(), spec_split(s, '\n')) {
        None => None,
        Some(acc) => {
            if acc.version == Some(SAVE_VERSION) && acc.started && acc.difficulty is Some {
                Some(
                    SavedRunV {
                        difficulty: acc.difficulty->0,
                        tri_level: acc.tri_level,
                        recall_level: acc.recall_level,
                        infinite_round: acc.infinite_round,
                        seconds_elapsed: acc.seconds_elapsed,
                        run_mismatches: acc.run_mismatches,
                        run_matches: acc.run_matches,
                        impossible_mismatch_count: acc.impossible_mismatch_count,
                        impossible_punish_stage: acc.impossible_punish_stage,
                        impossible_last_first_index: acc.impossible_last_first_index,
                        impossible_same_first_streak: acc.impossible_same_first_streak,
                        flipped_indices: acc.flipped_indices,
                        tiles: acc.tiles,
                    },
                )
            } else {
                None
            }
        },
    }
}

struct ParseAcc {
    version: Option<u8>,
    started: bool,
    difficulty: Option<Difficulty>,
    tri_level: u8,
    recall_level: u8,
    infinite_round: u32,
    seconds_elapsed: u32,
    run_mismatches: u32,
    run_matches: u32,
    impossible_mismatch_count: u8,
    impossible_punish_stage: u8,
    impossible_last_first_index: Option<usize>,
    impossible_same_first_streak: u8,
    flipped_indices: Vec<usize>,
    tiles: Vec<Tile>,
}

impl ParseAcc {
    spec fn view_acc(self) -> RunAcc {
        RunAcc {
            version: self.version,
            started: self.started,
            difficulty: self.difficulty,
            tri_level: self.tri_level,
            recall_level: self.recall_level,
            infinite_round: self.infinite_round,
            seconds_elapsed: self.seconds_elapsed,
            run_mismatches: self.run_mismatches,
            run_matches: self.run_matches,
            impossible_mismatch_count: self.impossible_mismatch_count,
            impossible_punish_stage: self.impossible_punish_stage,
            impossible_last_first_index: self.impossible_last_first_index,
            impossible_same_first_streak: self.impossible_same_first_streak,
            flipped_indices: self.flipped_indices@,
            tiles: self.tiles@.map_values(|t: Tile| (t.status, t.value@)),
        }
    }
}

/// Once the tail of the parts fails to parse, the whole list fails.
proof fn lemma_index_parts_none_prefix(parts: Seq<Seq<char>>, j: int)
    requires
        0 <= j <= parts.len(),
        spec_parse_index_parts(parts.skip(j)) is None,
    ensures
        spec_parse_index_parts(parts) is None,
    decreases j,
{
    if j == 0 {
        assert(parts.skip(0) =~= parts);
    } else {
        assert(parts.skip(j - 1).drop_first() =~= parts.skip(j));
        assert(parts.skip(j - 1).len() > 0);
        lemma_index_parts_none_prefix(parts, j - 1);
    }
}

/// Read the flipped-index field.
fn parse_flipped_field(value: &Vec<char>) -> (r: Option<Vec<usize>>)
    ensures
        match r {
            Some(l) => spec_parse_flipped(value@) == Some(l@),
            None => spec_parse_flipped(value@) is None,
        },
{
    let trimmed = trim_chars(value);
    if trimmed.len() == 0 {
        let empty: Vec<usize> = Vec::new();
        proof {
            assert(empty@ =~= Seq::<usize>::empty());
        }
        return Some(empty);
    }
    let parts = split_chars(&trimmed, ',');
    let ghost part_views = crate::text::char_views(parts@);
    let n = parts.len();
    let mut i: usize = n;
    // Walk the parts from the back, so the collected list grows in the same
    // front-first order the reader's definition uses.
    let mut collected: Vec<usize> = Vec::new();
    proof {
        assert(part_views.len() == n);
        assert(part_views.skip(n as int).len() == 0);
        assert(collected@ =~= Seq::<usize>::empty());
    }
    while i > 0
        invariant
            i <= n,
            n == parts@.len(),
            trimmed@ == spec_trim(value@),
            trimmed@.len() != 0,
            part_views == spec_split(trimmed@, ','),
            part_views == crate::text::char_views(parts@),
            part_views.len() == n,
            spec_parse_index_parts(part_views.skip(i as int)) == Some(collected@),
        decreases i,
    {
        i -= 1;
        proof {
            assert(part_views.skip(i as int)[0] == part_views[i as int]);
            assert(part_views[i as int] == parts@[i as int]@);
            assert(part_views.skip(i as int).drop_first() =~= part_views.skip(i + 1));
        }
        let head = trim_chars(&parts[i]);
        if head.len() == 0 {
            // An empty part is skipped.
        } else {
            match parse_usize_chars(&head) {
                None => {
                    proof {
                        assert(spec_parse_index_parts(part_views.skip(i as int)) is None);
                        lemma_index_parts_none_prefix(part_views, i as int);
                        assert(spec_trim(value@).len() != 0);
                        assert(spec_split(spec_trim(value@), ',') == part_views);
                        assert(spec_parse_flipped(value@) is None);
                    }
                    return None;
                },
                Some(v) => {
                    let ghost pre = collected@;
                    collected.insert(0, v);
                    proof {
                        assert(collected@ =~= seq![v] + pre);
                    }
                },
            }
        }
    }
    proof {
        assert(part_views.skip(0) =~= part_views);
    }
    Some(collected)
}

/// Apply one line to the gathered fields; false means the file is bad.
fn apply_line(acc: &mut ParseAcc, line: &Vec<char>) -> (ok: bool)
    ensures
        match spec_apply_line(old(acc).view_acc(), line@) {
            Some(a) => ok && final(acc).view_acc() == a,
            None => !ok,
        },
{
    let f = match find_char(line, '=') {
        Some(f) => f,
        None => {
            return true;
        },
    };
    let line_len = line.len();
    proof {
        crate::text::lemma_find_props(line@, '=');
        assert(f < line_len);
    }
    let key = subrange_chars(line, 0, f);
    let value = subrange_chars(line, f + 1, line_len);
    proof {
        assert(key@ =~= line@.take(f as int));
        assert(value@ =~= line@.skip(f + 1));
    }
    if chars_eq_lit(&key, "version") {
        acc.version = parse_u8_chars(&value);
        true
    } else if chars_eq_lit(&key, "started") {
        let t = trim_chars(&value);
        acc.started = chars_eq_lit(&t, "1");
        true
    } else if chars_eq_lit(&key, "difficulty") {
        let t = trim_chars(&value);
        acc.difficulty = difficulty_from_code(&t);
        true
    } else if chars_eq_lit(&key, "tri_level") {
        match parse_u8_chars(&value) {
            None => false,
            Some(v) => {
                acc.tri_level = if v < 1 {
                    1
                } else if v > 4 {
                    4
                } else {
                    v
                };
                true
            },
        }
    } else if chars_eq_lit(&key, "recall_level") {
        match parse_u8_chars(&value) {
            None => false,
            Some(v) => {
                acc.recall_level = if v < 1 {
                    1
                } else if v > 4 {
                    4
                } else {
                    v
                };
                true
            },
        }
    } else if chars_eq_lit(&key, "infinite_round") {
        match parse_u32_chars(&value) {
            None => false,
            Some(v) => {
                acc.infinite_round = if v == 0 {
                    1
                } else {
                    v
                };
                true
            },
        }
    } else if chars_eq_lit(&key, "seconds_elapsed") {
        match parse_u32_chars(&value) {
            None => false,
            Some(v) => {
                acc.seconds_elapsed = v;
                true
            },
        }
    } else if chars_eq_lit(&key, "run_mismatches") {
        match parse_u32_chars(&value) {
            None => false,
            Some(v) => {
                acc.run_mismatches = v;
                true
            },
        }
    } else if chars_eq_lit(&key, "run_matches") {
        match parse_u32_chars(&value) {
            None => false,
            Some(v) => {
                acc.run_matches = v;
                true
            },
        }
    } else if chars_eq_lit(&key, "impossible_mismatch_count") {
        match parse_u8_chars(&value) {
            None => false,
            Some(v) => {
                acc.impossible_mismatch_count = v;
                true
            },
        }
    } else if chars_eq_lit(&key, "impossible_punish_stage") {
        match parse_u8_chars(&value) {
            None => false,
            Some(v) => {
                acc.impossible_punish_stage = v;
                true
            },
        }
    } else if chars_eq_lit(&key, "impossible_last_first_index") {
        let t = trim_chars(&value);
        if chars_eq_lit(&t, "-") {
            acc.impossible_last_first_index = None;
            true
        } else {
            match parse_usize_chars(&value) {
                None => false,
                Some(v) => {
                    acc.impossible_last_first_index = Some(v);
                    true
                },
            }
        }
    } else if chars_eq_lit(&key, "impossible_same_first_streak") {
        match parse_u8_chars(&value) {
            None => false,
            Some(v) => {
                acc.impossible_same_first_streak = v;
                true
            },
        }
    } else if chars_eq_lit(&key, "flipped_indices") {
        match parse_flipped_field(&value) {
            None => false,
            Some(l) => {
                acc.flipped_indices = l;
                true
            },
        }
    } else if chars_eq_lit(&key, "tile") {
        match parse_tile(&value) {
            None => false,
            Some(t) => {
                let ghost pre = acc.tiles@;
                acc.tiles.push(t);
                proof {
                    assert(acc.tiles@.map_values(|t: Tile| (t.status, t.value@)) =~= pre.map_values(
                        |t: Tile| (t.status, t.value@),
                    ).push((acc.tiles@.last().status, acc.tiles@.last().value@)));
                }
                true
            },
        }
    } else {
        true
    }
}

/// Read a whole save file back into a run snapshot, if it is well formed,
/// carries the current schema version, and describes a started run.
pub fn parse_saved_run(raw: &str) -> (r: Option<SavedRun>)
    ensures
        match r {
            Some(run) => spec_parse_saved_run(raw@) == Some(run.view_v()),
            None => spec_parse_saved_run(raw@) is None,
        },
{
    let chars = str_to_chars(raw);
    let lines = split_chars(&chars, '\n');
    let ghost line_views = crate::text::char_views(lines@);
    let mut acc = ParseAcc {
        version: None,
        started: false,
        difficulty: None,
        tri_level: 3,
        recall_level: 2,
        infinite_round: 1,
        seconds_elapsed: 0,
        run_mismatches: 0,
        run_matches: 0,
        impossible_mismatch_count: 0,
        impossible_punish_stage: 0,
        impossible_last_first_index: None,
        impossible_same_first_streak: 0,
        flipped_indices: Vec::new(),
        tiles: Vec::new(),
    };
    proof {
        assert(acc.flipped_indices@ =~= Seq::<usize>::empty());
        assert(acc.tiles@.map_values(|t: Tile| (t.status, t.value@)) =~= Seq::<
            (TileStatus, Seq<char>),
        >::empty());
        assert(acc.view_acc() == spec_init_acc());
        assert(line_views.skip(0) =~= line_views);
    }
    let n = lines.len();
    let mut i: usize = 0;
    while i < n
        invariant
            i <= n,
            n == lines@.len(),
            line_views == crate::text::char_views(lines@),
            line_views == spec_split(raw@, '\n'),
            line_views.len() == n,
            spec_parse_lines(spec_init_acc(), line_views) == spec_parse_lines(
                acc.view_acc(),
                line_views.skip(i as int),
            ),
        decreases n - i,
    {
        proof {
            assert(line_views.skip(i as int)[0] == line_views[i as int]);
            assert(line_views[i as int] == lines@[i as int]@);
            assert(line_views.skip(i as int).drop_first() =~= line_views.skip(i + 1));
        }
        let ok = apply_line(&mut acc, &lines[i]);
        if !ok {
            return None;
        }
        i += 1;
    }
    proof {
        assert(line_views.skip(n as int).len() == 0);
    }

    let version_ok = match acc.version {
        Some(v) => v == SAVE_VERSION,
        None => false,
    };
    if !version_ok || !acc.started {
        return None;
    }
    let difficulty = match acc.difficulty {
        Some(d) => d,
        None => {
            return None;
        },
    };
    Some(SavedRun {
        difficulty,
        tri_level: acc.tri_level,
        recall_level: acc.recall_level,
        infinite_round: acc.infinite_round,
        seconds_elapsed: acc.seconds_elapsed,
        run_mismatches: acc.run_mismatches,
        run_matches: acc.run_matches,
        impossible_mismatch_count: acc.impossible_mismatch_count,
        impossible_punish_stage: acc.impossible_punish_stage,
        impossible_last_first_index: acc.impossible_last_first_index,
        impossible_same_first_streak: acc.impossible_same_first_streak,
        flipped_indices: acc.flipped_indices,
        tiles: acc.tiles,
    })
}

/// Whether a raw save file describes a resumable run.
pub fn has_saved_run(raw: &Option<String>) -> (r: bool)
    ensures
        r == match raw {
            Some(s) => spec_parse_saved_run(s@) is Some,
            None => false,
        },
{
    match raw {
        Some(s) => parse_saved_run(s.as_str()).is_some(),
        None => false,
    }
}

/// A non-empty digit string contains no newline, no comma, no whitespace,
/// trims to itself, and is not the placeholder dash.
proof fn lemma_digits_value_facts(s: Seq<char>)
    requires
        s.len() >= 1,
        crate::text::all_digits(s),
    ensures
        forall|i: int| 0 <= i < s.len() ==> (#[trigger] s[i]) != '\n' && s[i] != ',' && !crate::text::is_space_char(s[i]),
        spec_trim(s) == s,
        s != "-"@,
    decreases s.len(),
{
    assert forall|i: int|
        0 <= i < s.len() implies (#[trigger] s[i]) != '\n' && s[i] != ',' && !crate::text::is_space_char(
        s[i],
    ) by {
        assert(crate::text::is_digit_char(s[i]));
    }
    crate::text::lemma_trim_id(s);
    reveal_strlit("-");
    if s == "-"@ {
        assert(crate::text::is_digit_char(s[0]));
        assert(s[0] == '-');
    }
}

/// A flipped-index list in its longer form reads head first.
proof fn lemma_index_list_head(idxs: Seq<usize>)
    requires
        idxs.len() >= 2,
    ensures
        spec_index_list(idxs) == spec_num_chars(idxs[0] as nat) + seq![','] + spec_index_list(
            idxs.drop_first(),
        ),
    decreases idxs.len(),
{
    if idxs.len() == 2 {
        assert(idxs.drop_last() =~= seq![idxs[0]]);
        assert(idxs.drop_first() =~= seq![idxs[1]]);
        assert(idxs.last() == idxs[1]);
    } else {
        lemma_index_list_head(idxs.drop_last());
        assert(idxs.drop_last()[0] == idxs[0]);
        assert(idxs.drop_last().drop_first() =~= idxs.drop_first().drop_last());
        assert(idxs.drop_first().last() == idxs.last());
        assert(spec_index_list(idxs) == spec_index_list(idxs.drop_last()) + seq![',']
            + spec_num_chars(idxs.last() as nat));
        assert(spec_index_list(idxs.drop_first()) == spec_index_list(idxs.drop_first().drop_last())
            + seq![','] + spec_num_chars(idxs.drop_first().last() as nat));
        assert(spec_index_list(idxs) =~= spec_num_chars(idxs[0] as nat) + seq![',']
            + spec_index_list(idxs.drop_first()));
    }
}

/// Every character of a flipped-index list is a digit or a comma.
proof fn lemma_index_list_chars(idxs: Seq<usize>)
    ensures
        forall|i: int|
            0 <= i < spec_index_list(idxs).len() ==> (crate::text::is_digit_char(
                #[trigger] spec_index_list(idxs)[i],
            ) || spec_index_list(idxs)[i] == ','),
    decreases idxs.len(),
{
    if idxs.len() == 0 {
    } else if idxs.len() == 1 {
        crate::text::lemma_num_chars_val(idxs[0] as nat);
    } else {
        lemma_index_list_chars(idxs.drop_last());
        crate::text::lemma_num_chars_val(idxs.last() as nat);
        let a = spec_index_list(idxs.drop_last());
        let b = spec_num_chars(idxs.last() as nat);
        assert forall|i: int|
            0 <= i < spec_index_list(idxs).len() implies (crate::text::is_digit_char(
            #[trigger] spec_index_list(idxs)[i],
        ) || spec_index_list(idxs)[i] == ',') by {
            if i < a.len() {
                assert(spec_index_list(idxs)[i] == a[i]);
            } else if i == a.len() {
                assert(spec_index_list(idxs)[i] == ',');
            } else {
                assert(spec_index_list(idxs)[i] == b[i - a.len() - 1]);
                assert(crate::text::all_digits(b));
            }
        }
    }
}

/// Splitting a written flipped-index list at commas gives each number back.
proof fn lemma_split_index_list(idxs: Seq<usize>)
    requires
        idxs.len() >= 1,
    ensures
        spec_split(spec_index_list(idxs), ',') == idxs.map_values(
            |i: usize| spec_num_chars(i as nat),
        ),
    decreases idxs.len(),
{
    crate::text::lemma_num_chars_val(idxs[0] as nat);
    lemma_digits_value_facts(spec_num_chars(idxs[0] as nat));
    if idxs.len() == 1 {
        crate::text::lemma_split_whole(spec_num_chars(idxs[0] as nat), ',');
        assert(seq![spec_num_chars(idxs[0] as nat)] =~= idxs.map_values(
            |i: usize| spec_num_chars(i as nat),
        ));
    } else {
        lemma_index_list_head(idxs);
        lemma_split_index_list(idxs.drop_first());
        crate::text::lemma_split_sep_head(
            spec_num_chars(idxs[0] as nat),
            spec_index_list(idxs.drop_first()),
            ',',
        );
        assert(seq![spec_num_chars(idxs[0] as nat)] + idxs.drop_first().map_values(
            |i: usize| spec_num_chars(i as nat),
        ) =~= idxs.map_values(|i: usize| spec_num_chars(i as nat)));
    }
}

/// A list of written numbers reads back to the numbers themselves.
proof fn lemma_parse_index_parts_roundtrip(idxs: Seq<usize>)
    ensures
        spec_parse_index_parts(idxs.map_values(|i: usize| spec_num_chars(i as nat))) == Some(idxs),
    decreases idxs.len(),
{
    let parts = idxs.map_values(|i: usize| spec_num_chars(i as nat));
    if idxs.len() == 0 {
        assert(parts.len() == 0);
        assert(idxs =~= Seq::<usize>::empty());
    } else {
        lemma_parse_index_parts_roundtrip(idxs.drop_first());
        assert(parts.drop_first() =~= idxs.drop_first().map_values(
            |i: usize| spec_num_chars(i as nat),
        ));
        let head_raw = parts[0];
        assert(head_raw == spec_num_chars(idxs[0] as nat));
        crate::text::lemma_num_chars_val(idxs[0] as nat);
        lemma_digits_value_facts(head_raw);
        assert(spec_trim(head_raw) == head_raw);
        assert(crate::text::spec_parse_usize(head_raw) == Some(idxs[0]));
        assert(seq![idxs[0]] + idxs.drop_first() =~= idxs);
    }
}

/// The flipped-index field reads back to the list it was written from.
proof fn lemma_parse_flipped_roundtrip(idxs: Seq<usize>)
    ensures
        spec_parse_flipped(spec_index_list(idxs)) == Some(idxs),
{
    let list = spec_index_list(idxs);
    lemma_index_list_chars(idxs);
    assert forall|i: int| 0 <= i < list.len() implies !crate::text::is_space_char(
        #[trigger] list[i],
    ) by {
        assert(crate::text::is_digit_char(list[i]) || list[i] == ',');
    }
    crate::text::lemma_trim_id(list);
    if idxs.len() == 0 {
        assert(list.len() == 0);
        assert(idxs =~= Seq::<usize>::empty());
    } else {
        assert(list.len() > 0) by {
            crate::text::lemma_num_chars_val(idxs[0] as nat);
            if idxs.len() == 1 {
            } else {
                lemma_index_list_head(idxs);
            }
        }
        lemma_split_index_list(idxs);
        lemma_parse_index_parts_roundtrip(idxs);
    }
}

/// A tile-lines block in its longer form reads head first.
proof fn lemma_tile_lines_head(tiles: Seq<(TileStatus, Seq<char>)>)
    requires
        tiles.len() >= 1,
    ensures
        spec_tile_lines(tiles) == spec_kv_line("tile"@, spec_encode_tile(tiles[0].0, tiles[0].1))
            + spec_tile_lines(tiles.drop_first()),
    decreases tiles.len(),
{
    if tiles.len() == 1 {
        assert(tiles.drop_last() =~= Seq::<(TileStatus, Seq<char>)>::empty());
        assert(tiles.drop_first() =~= Seq::<(TileStatus, Seq<char>)>::empty());
        assert(tiles.last() == tiles[0]);
        assert(spec_tile_lines(tiles) =~= spec_kv_line(
            "tile"@,
            spec_encode_tile(tiles[0].0, tiles[0].1),
        ) + spec_tile_lines(tiles.drop_first()));
    } else {
        lemma_tile_lines_head(tiles.drop_last());
        assert(tiles.drop_last()[0] == tiles[0]);
        assert(tiles.drop_last().drop_first() =~= tiles.drop_first().drop_last());
        assert(tiles.drop_first().last() == tiles.last());
        assert(spec_tile_lines(tiles.drop_first()) == spec_tile_lines(
            tiles.drop_first().drop_last(),
        ) + spec_kv_line(
            "tile"@,
            spec_encode_tile(tiles.drop_first().last().0, tiles.drop_first().last().1),
        ));
        assert(spec_tile_lines(tiles) =~= spec_kv_line(
            "tile"@,
            spec_encode_tile(tiles[0].0, tiles[0].1),
        ) + spec_tile_lines(tiles.drop_first()));
    }
}

/// The content of a tile line (status letter, separator, escaped symbol)
/// never holds a newline.
proof fn lemma_tile_line_content_no_newline(t: (TileStatus, Seq<char>))
    ensures
        forall|i: int|
            0 <= i < ("tile"@ + seq!['='] + spec_encode_tile(t.0, t.1)).len() ==> (#[trigger] (
            "tile"@ + seq!['='] + spec_encode_tile(t.0, t.1))[i]) != '\n',
{
    reveal_strlit("tile");
    lemma_escape_no_newline(t.1);
    let c = "tile"@ + seq!['='] + spec_encode_tile(t.0, t.1);
    assert forall|i: int| 0 <= i < c.len() implies (#[trigger] c[i]) != '\n' by {
        if i < 5 {
            assert(c[i] == ("tile"@ + seq!['='])[i]);
        } else {
            let e = spec_encode_tile(t.0, t.1);
            assert(c[i] == e[i - 5]);
            if i - 5 >= 2 {
                assert(e[i - 5] == spec_escape(t.1)[i - 5 - 2]);
            }
        }
    }
}

/// Whether a line carries the given key before its first equals sign.
pub open spec fn spec_line_key_is(line: Seq<char>, key: Seq<char>) -> bool {
    let f = crate::text::spec_find(line, '=');
    0 <= f < line.len() && line.take(f) == key
}

/// Applying one written tile line appends exactly that tile.
#[verifier::rlimit(60)]
proof fn lemma_apply_tile_line(acc: RunAcc, t: (TileStatus, Seq<char>))
    ensures
        spec_apply_line(acc, "tile"@ + seq!['='] + spec_encode_tile(t.0, t.1)) == Some(
            RunAcc { tiles: acc.tiles.push(t), ..acc },
        ),
        !spec_line_key_is("tile"@ + seq!['='] + spec_encode_tile(t.0, t.1), "version"@),
{
    reveal_strlit("tile");
    reveal_strlit("version");
    reveal_strlit("started");
    reveal_strlit("difficulty");
    reveal_strlit("tri_level");
    reveal_strlit("recall_level");
    reveal_strlit("infinite_round");
    reveal_strlit("seconds_elapsed");
    reveal_strlit("run_mismatches");
    reveal_strlit("run_matches");
    reveal_strlit("impossible_mismatch_count");
    reveal_strlit("impossible_punish_stage");
    reveal_strlit("impossible_last_first_index");
    reveal_strlit("impossible_same_first_streak");
    reveal_strlit("flipped_indices");
    let content = "tile"@ + seq!['='] + spec_encode_tile(t.0, t.1);
    assert(crate::text::spec_find(content, '=') == 4) by {
        assert(forall|i: int| 0 <= i < 4 ==> ("tile"@)[i] != '=');
        crate::text::lemma_find_shift("tile"@, spec_encode_tile(t.0, t.1), '=');
        assert("tile"@ + seq!['='] + spec_encode_tile(t.0, t.1) == content);
    }
    assert(content.take(4) =~= "tile"@);
    assert(content.skip(5) =~= spec_encode_tile(t.0, t.1));
    lemma_tile_round_trip(t.0, t.1);
    assert("tile"@ != "version"@);
}

/// Reading the tile lines appends exactly the written tiles, in order, to
/// whatever was gathered before.
proof fn lemma_parse_tiles_section(acc: RunAcc, tiles: Seq<(TileStatus, Seq<char>)>)
    ensures
        spec_parse_lines(acc, spec_split(spec_tile_lines(tiles), '\n')) == Some(
            RunAcc { tiles: acc.tiles + tiles, ..acc },
        ),
    decreases tiles.len(),
{
    if tiles.len() == 0 {
        let empty = Seq::<char>::empty();
        assert(spec_tile_lines(tiles) =~= empty);
        crate::text::lemma_split_whole(empty, '\n');
        assert(spec_split(empty, '\n') == seq![empty]);
        assert(crate::text::spec_find(empty, '=') == -1);
        assert(spec_apply_line(acc, empty) == Some(acc));
        assert(seq![empty].drop_first() =~= Seq::<Seq<char>>::empty());
        assert(acc.tiles + tiles =~= acc.tiles);
        assert(RunAcc { tiles: acc.tiles + tiles, ..acc } =~= acc);
        assert(spec_parse_lines(acc, Seq::<Seq<char>>::empty()) == Some(acc));
        assert(spec_parse_lines(acc, seq![empty].drop_first()) == Some(acc));
        assert(spec_parse_lines(acc, spec_split(spec_tile_lines(tiles), '\n')) == Some(acc));
    } else {
        lemma_tile_lines_head(tiles);
        let content = "tile"@ + seq!['='] + spec_encode_tile(tiles[0].0, tiles[0].1);
        let rest = spec_tile_lines(tiles.drop_first());
        assert(spec_tile_lines(tiles) =~= content + seq!['\n'] + rest) by {
            reveal_strlit("tile");
            assert(spec_kv_line("tile"@, spec_encode_tile(tiles[0].0, tiles[0].1)) =~= content
                + seq!['\n']);
        }
        lemma_tile_line_content_no_newline(tiles[0]);
        crate::text::lemma_split_sep_head(content, rest, '\n');
        lemma_apply_tile_line(acc, tiles[0]);
        let acc2 = RunAcc { tiles: acc.tiles.push(tiles[0]), ..acc };
        lemma_parse_tiles_section(acc2, tiles.drop_first());
        assert((seq![content] + spec_split(rest, '\n')).drop_first() =~= spec_split(rest, '\n'));
        assert((seq![content] + spec_split(rest, '\n'))[0] == content);
        assert(acc2.tiles + tiles.drop_first() =~= acc.tiles + tiles);
        assert(RunAcc { tiles: acc2.tiles + tiles.drop_first(), ..acc2 } =~= RunAcc {
            tiles: acc.tiles + tiles,
            ..acc
        });
        assert(spec_split(spec_tile_lines(tiles), '\n') == seq![content] + spec_split(rest, '\n'));
    }
}

/// The separator splits a written key-value pair back into its key and
/// value.
proof fn lemma_kv_split(key: Seq<char>, value: Seq<char>)
    requires
        forall|i: int| 0 <= i < key.len() ==> (#[trigger] key[i]) != '=',
    ensures
        crate::text::spec_find(key + seq!['='] + value, '=') == key.len(),
        (key + seq!['='] + value).take(key.len() as int) == key,
        (key + seq!['='] + value).skip(key.len() as int + 1) == value,
{
    crate::text::lemma_find_shift(key, value, '=');
    assert((key + seq!['='] + value).take(key.len() as int) =~= key);
    assert((key + seq!['='] + value).skip(key.len() as int + 1) =~= value);
}

/// Key-value content whose parts carry no newline carries none itself.
proof fn lemma_kv_content_no_newline(key: Seq<char>, value: Seq<char>)
    requires
        forall|i: int| 0 <= i < key.len() ==> (#[trigger] key[i]) != '\n',
        forall|i: int| 0 <= i < value.len() ==> (#[trigger] value[i]) != '\n',
    ensures
        forall|i: int|
            0 <= i < (key + seq!['='] + value).len() ==> (#[trigger] (key + seq!['='] + value)[i])
                != '\n',
{
    let c = key + seq!['='] + value;
    assert forall|i: int| 0 <= i < c.len() implies (#[trigger] c[i]) != '\n' by {
        if i < key.len() {
            assert(c[i] == key[i]);
        } else if i == key.len() {
            assert(c[i] == '=');
        } else {
            assert(c[i] == value[i - key.len() - 1]);
        }
    }
}

/// A difficulty's save-file word holds no whitespace or newline and reads
/// back to the difficulty itself.
proof fn lemma_difficulty_code_roundtrip(d: Difficulty)
    ensures
        spec_trim(spec_difficulty_code(d)) == spec_difficulty_code(d),
        spec_difficulty_from_code(spec_difficulty_code(d)) == Some(d),
        forall|i: int|
            0 <= i < spec_difficulty_code(d).len() ==> (#[trigger] spec_difficulty_code(d)[i])
                != '\n',
{
    reveal_strlit("easy");
    reveal_strlit("medium");
    reveal_strlit("hard");
    reveal_strlit("impossible");
    reveal_strlit("tri");
    reveal_strlit("recall");
    let code = spec_difficulty_code(d);
    assert forall|i: int| 0 <= i < code.len() implies !crate::text::is_space_char(
        #[trigger] code[i],
    ) && code[i] != '\n' by {
        match d {
            Difficulty::Easy => assert(code == "easy"@),
            Difficulty::Medium => assert(code == "medium"@),
            Difficulty::Hard => assert(code == "hard"@),
            Difficulty::Impossible => assert(code == "impossible"@),
            Difficulty::Tri => assert(code == "tri"@),
            Difficulty::RecallMode => assert(code == "recall"@),
        }
    }
    crate::text::lemma_trim_id(code);
}

/// The content (before the newline) of the k-th fixed line of a save
/// file, counted from zero.
pub open spec fn spec_line_content(v: SavedRunV, k: int) -> Seq<char> {
    if k == 0 {
        "version"@ + seq!['='] + spec_num_chars(SAVE_VERSION as nat)
    } else if k == 1 {
        "started"@ + seq!['='] + "1"@
    } else if k == 2 {
        "difficulty"@ + seq!['='] + spec_difficulty_code(v.difficulty)
    } else if k == 3 {
        "tri_level"@ + seq!['='] + spec_num_chars(v.tri_level as nat)
    } else if k == 4 {
        "recall_level"@ + seq!['='] + spec_num_chars(v.recall_level as nat)
    } else if k == 5 {
        "infinite_round"@ + seq!['='] + spec_num_chars(v.infinite_round as nat)
    } else if k == 6 {
        "seconds_elapsed"@ + seq!['='] + spec_num_chars(v.seconds_elapsed as nat)
    } else if k == 7 {
        "run_mismatches"@ + seq!['='] + spec_num_chars(v.run_mismatches as nat)
    } else if k == 8 {
        "run_matches"@ + seq!['='] + spec_num_chars(v.run_matches as nat)
    } else if k == 9 {
        "impossible_mismatch_count"@ + seq!['='] + spec_num_chars(v.impossible_mismatch_count as nat)
    } else if k == 10 {
        "impossible_punish_stage"@ + seq!['='] + spec_num_chars(v.impossible_punish_stage as nat)
    } else if k == 11 {
        "impossible_last_first_index"@ + seq!['='] + (match v.impossible_last_first_index { None => "-"@, Some(i) => spec_num_chars(i as nat) })
    } else if k == 12 {
        "impossible_same_first_streak"@ + seq!['='] + spec_num_chars(v.impossible_same_first_streak as nat)
    } else if k == 13 {
        "flipped_indices"@ + seq!['='] + spec_index_list(v.flipped_indices)
    } else {
        Seq::empty()
    }
}

/// The fields gathered after the first k fixed lines of a written file.
pub open spec fn spec_line_acc(v: SavedRunV, k: int) -> RunAcc {
    let a0 = spec_init_acc();
    let a1 = RunAcc { version: Some(SAVE_VERSION), ..a0 };
    let a2 = RunAcc { started: true, ..a1 };
    let a3 = RunAcc { difficulty: Some(v.difficulty), ..a2 };
    let a4 = RunAcc { tri_level: v.tri_level, ..a3 };
    let a5 = RunAcc { recall_level: v.recall_level, ..a4 };
    let a6 = RunAcc { infinite_round: v.infinite_round, ..a5 };
    let a7 = RunAcc { seconds_elapsed: v.seconds_elapsed, ..a6 };
    let a8 = RunAcc { run_mismatches: v.run_mismatches, ..a7 };
    let a9 = RunAcc { run_matches: v.run_matches, ..a8 };
    let a10 = RunAcc { impossible_mismatch_count: v.impossible_mismatch_count, ..a9 };
    let a11 = RunAcc { impossible_punish_stage: v.impossible_punish_stage, ..a10 };
    let a12 = RunAcc { impossible_last_first_index: v.impossible_last_first_index, ..a11 };
    let a13 = RunAcc { impossible_same_first_streak: v.impossible_same_first_streak, ..a12 };
    let a14 = RunAcc { flipped_indices: v.flipped_indices, ..a13 };
    if k <= 0 { a0 } else if k <= 1 { a1 } else if k <= 2 { a2 } else if k <= 3 { a3 } else if k <= 4 { a4 } else if k <= 5 { a5 } else if k <= 6 { a6 } else if k <= 7 { a7 } else if k <= 8 { a8 } else if k <= 9 { a9 } else if k <= 10 { a10 } else if k <= 11 { a11 } else if k <= 12 { a12 } else if k <= 13 { a13 } else { a14 }
}

/// Each fixed line, applied to the fields gathered so far, sets exactly
/// its own field; and its content holds no newline.
#[verifier::rlimit(100)]
proof fn lemma_fixed_line(v: SavedRunV, k: int)
    requires
        0 <= k < 14,
        1 <= v.tri_level <= 4,
        1 <= v.recall_level <= 4,
        1 <= v.infinite_round,
    ensures
        spec_apply_line(spec_line_acc(v, k), spec_line_content(v, k)) == Some(
            spec_line_acc(v, k + 1),
        ),
        forall|i: int|
            0 <= i < spec_line_content(v, k).len() ==> (#[trigger] spec_line_content(v, k)[i])
                != '\n',
        k >= 1 ==> !spec_line_key_is(spec_line_content(v, k), "version"@),
{
    reveal_strlit("version");
    reveal_strlit("started");
    reveal_strlit("difficulty");
    reveal_strlit("tri_level");
    reveal_strlit("recall_level");
    reveal_strlit("infinite_round");
    reveal_strlit("seconds_elapsed");
    reveal_strlit("run_mismatches");
    reveal_strlit("run_matches");
    reveal_strlit("impossible_mismatch_count");
    reveal_strlit("impossible_punish_stage");
    reveal_strlit("impossible_last_first_index");
    reveal_strlit("impossible_same_first_streak");
    reveal_strlit("flipped_indices");
    reveal_strlit("1");
    reveal_strlit("-");
    assert forall|i: int| 0 <= i < "1"@.len() implies ((#[trigger] "1"@[i]) != '\n'
        && !crate::text::is_space_char("1"@[i])) by {}
    crate::text::lemma_trim_id("1"@);
    lemma_difficulty_code_roundtrip(v.difficulty);
    crate::text::lemma_num_chars_val(SAVE_VERSION as nat);
    lemma_digits_value_facts(spec_num_chars(SAVE_VERSION as nat));
    crate::text::lemma_num_chars_val(v.tri_level as nat);
    lemma_digits_value_facts(spec_num_chars(v.tri_level as nat));
    crate::text::lemma_num_chars_val(v.recall_level as nat);
    lemma_digits_value_facts(spec_num_chars(v.recall_level as nat));
    crate::text::lemma_num_chars_val(v.infinite_round as nat);
    lemma_digits_value_facts(spec_num_chars(v.infinite_round as nat));
    crate::text::lemma_num_chars_val(v.seconds_elapsed as nat);
    lemma_digits_value_facts(spec_num_chars(v.seconds_elapsed as nat));
    crate::text::lemma_num_chars_val(v.run_mismatches as nat);
    lemma_digits_value_facts(spec_num_chars(v.run_mismatches as nat));
    crate::text::lemma_num_chars_val(v.run_matches as nat);
    lemma_digits_value_facts(spec_num_chars(v.run_matches as nat));
    crate::text::lemma_num_chars_val(v.impossible_mismatch_count as nat);
    lemma_digits_value_facts(spec_num_chars(v.impossible_mismatch_count as nat));
    crate::text::lemma_num_chars_val(v.impossible_punish_stage as nat);
    lemma_digits_value_facts(spec_num_chars(v.impossible_punish_stage as nat));
    crate::text::lemma_num_chars_val(v.impossible_same_first_streak as nat);
    lemma_digits_value_facts(spec_num_chars(v.impossible_same_first_streak as nat));
    match v.impossible_last_first_index {
        None => {},
        Some(i) => {
            crate::text::lemma_num_chars_val(i as nat);
            lemma_digits_value_facts(spec_num_chars(i as nat));
        },
    }
    lemma_index_list_chars(v.flipped_indices);
    assert forall|i: int| 0 <= i < spec_index_list(v.flipped_indices).len() implies (
        #[trigger] spec_index_list(v.flipped_indices)[i]) != '\n' by {
        assert(crate::text::is_digit_char(spec_index_list(v.flipped_indices)[i])
            || spec_index_list(v.flipped_indices)[i] == ',');
    }
    lemma_parse_flipped_roundtrip(v.flipped_indices);
    if k == 0 {
        assert(forall|i: int| 0 <= i < "version"@.len() ==> ((#[trigger] "version"@[i]) != '\n' && "version"@[i] != '='));
        lemma_kv_content_no_newline("version"@, spec_num_chars(SAVE_VERSION as nat));
        lemma_kv_split("version"@, spec_num_chars(SAVE_VERSION as nat));
    }
    if k == 1 {
        assert(forall|i: int| 0 <= i < "started"@.len() ==> ((#[trigger] "started"@[i]) != '\n' && "started"@[i] != '='));
        lemma_kv_content_no_newline("started"@, "1"@);
        lemma_kv_split("started"@, "1"@);
        assert("started"@ != "version"@);
    }
    if k == 2 {
        assert(forall|i: int| 0 <= i < "difficulty"@.len() ==> ((#[trigger] "difficulty"@[i]) != '\n' && "difficulty"@[i] != '='));
        lemma_kv_content_no_newline("difficulty"@, spec_difficulty_code(v.difficulty));
        lemma_kv_split("difficulty"@, spec_difficulty_code(v.difficulty));
        assert("difficulty"@ != "version"@);
    }
    if k == 3 {
        assert(forall|i: int| 0 <= i < "tri_level"@.len() ==> ((#[trigger] "tri_level"@[i]) != '\n' && "tri_level"@[i] != '='));
        lemma_kv_content_no_newline("tri_level"@, spec_num_chars(v.tri_level as nat));
        lemma_kv_split("tri_level"@, spec_num_chars(v.tri_level as nat));
        assert("tri_level"@ != "version"@);
    }
    if k == 4 {
        assert(forall|i: int| 0 <= i < "recall_level"@.len() ==> ((#[trigger] "recall_level"@[i]) != '\n' && "recall_level"@[i] != '='));
        lemma_kv_content_no_newline("recall_level"@, spec_num_chars(v.recall_level as nat));
        lemma_kv_split("recall_level"@, spec_num_chars(v.recall_level as nat));
        assert("recall_level"@ != "version"@);
    }
    if k == 5 {
        assert(forall|i: int| 0 <= i < "infinite_round"@.len() ==> ((#[trigger] "infinite_round"@[i]) != '\n' && "infinite_round"@[i] != '='));
        lemma_kv_content_no_newline("infinite_round"@, spec_num_chars(v.infinite_round as nat));
        lemma_kv_split("infinite_round"@, spec_num_chars(v.infinite_round as nat));
        assert("infinite_round"@ != "version"@);
    }
    if k == 6 {
        assert(forall|i: int| 0 <= i < "seconds_elapsed"@.len() ==> ((#[trigger] "seconds_elapsed"@[i]) != '\n' && "seconds_elapsed"@[i] != '='));
        lemma_kv_content_no_newline("seconds_elapsed"@, spec_num_chars(v.seconds_elapsed as nat));
        lemma_kv_split("seconds_elapsed"@, spec_num_chars(v.seconds_elapsed as nat));
        assert("seconds_elapsed"@ != "version"@);
    }
    if k == 7 {
        assert(forall|i: int| 0 <= i < "run_mismatches"@.len() ==> ((#[trigger] "run_mismatches"@[i]) != '\n' && "run_mismatches"@[i] != '='));
        lemma_kv_content_no_newline("run_mismatches"@, spec_num_chars(v.run_mismatches as nat));
        lemma_kv_split("run_mismatches"@, spec_num_chars(v.run_mismatches as nat));
        assert("run_mismatches"@ != "version"@);
    }
    if k == 8 {
        assert(forall|i: int| 0 <= i < "run_matches"@.len() ==> ((#[trigger] "run_matches"@[i]) != '\n' && "run_matches"@[i] != '='));
        lemma_kv_content_no_newline("run_matches"@, spec_num_chars(v.run_matches as nat));
        lemma_kv_split("run_matches"@, spec_num_chars(v.run_matches as nat));
        assert("run_matches"@ != "version"@);
    }
    if k == 9 {
        assert(forall|i: int| 0 <= i < "impossible_mismatch_count"@.len() ==> ((#[trigger] "impossible_mismatch_count"@[i]) != '\n' && "impossible_mismatch_count"@[i] != '='));
        lemma_kv_content_no_newline("impossible_mismatch_count"@, spec_num_chars(v.impossible_mismatch_count as nat));
        lemma_kv_split("impossible_mismatch_count"@, spec_num_chars(v.impossible_mismatch_count as nat));
        assert("impossible_mismatch_count"@ != "version"@);
    }
    if k == 10 {
        assert(forall|i: int| 0 <= i < "impossible_punish_stage"@.len() ==> ((#[trigger] "impossible_punish_stage"@[i]) != '\n' && "impossible_punish_stage"@[i] != '='));
        lemma_kv_content_no_newline("impossible_punish_stage"@, spec_num_chars(v.impossible_punish_stage as nat));
        lemma_kv_split("impossible_punish_stage"@, spec_num_chars(v.impossible_punish_stage as nat));
        assert("impossible_punish_stage"@ != "version"@);
    }
    if k == 11 {
        assert(forall|i: int| 0 <= i < "impossible_last_first_index"@.len() ==> ((#[trigger] "impossible_last_first_index"@[i]) != '\n' && "impossible_last_first_index"@[i] != '='));
        lemma_kv_content_no_newline("impossible_last_first_index"@, (match v.impossible_last_first_index { None => "-"@, Some(i) => spec_num_chars(i as nat) }));
        lemma_kv_split("impossible_last_first_index"@, (match v.impossible_last_first_index { None => "-"@, Some(i) => spec_num_chars(i as nat) }));
        assert("impossible_last_first_index"@ != "version"@);
    }
    if k == 12 {
        assert(forall|i: int| 0 <= i < "impossible_same_first_streak"@.len() ==> ((#[trigger] "impossible_same_first_streak"@[i]) != '\n' && "impossible_same_first_streak"@[i] != '='));
        lemma_kv_content_no_newline("impossible_same_first_streak"@, spec_num_chars(v.impossible_same_first_streak as nat));
        lemma_kv_split("impossible_same_first_streak"@, spec_num_chars(v.impossible_same_first_streak as nat));
        assert("impossible_same_first_streak"@ != "version"@);
    }
    if k == 13 {
        assert(forall|i: int| 0 <= i < "flipped_indices"@.len() ==> ((#[trigger] "flipped_indices"@[i]) != '\n' && "flipped_indices"@[i] != '='));
        lemma_kv_content_no_newline("flipped_indices"@, spec_index_list(v.flipped_indices));
        lemma_kv_split("flipped_indices"@, spec_index_list(v.flipped_indices));
        assert("flipped_indices"@ != "version"@);
    }
}

/// The text of a save file from the k-th fixed line onwards.
pub open spec fn spec_save_tail(v: SavedRunV, k: int) -> Seq<char>
    decreases 14 - k,
{
    if k >= 14 {
        spec_tile_lines(v.tiles)
    } else {
        (spec_line_content(v, k) + seq!['\n']) + spec_save_tail(v, k + 1)
    }
}

/// The serialized file is its fixed lines followed by the tile lines.
#[verifier::rlimit(100)]
proof fn lemma_serialize_as_tail(v: SavedRunV)
    ensures
        spec_serialize_saved_run(v) == spec_save_tail(v, 0),
{
    assert(spec_save_tail(v, 14) == spec_tile_lines(v.tiles));
    assert(spec_save_tail(v, 13) == (spec_line_content(v, 13) + seq!['\n']) + spec_save_tail(v, 14));
    assert(spec_save_tail(v, 12) == (spec_line_content(v, 12) + seq!['\n']) + spec_save_tail(v, 13));
    assert(spec_save_tail(v, 11) == (spec_line_content(v, 11) + seq!['\n']) + spec_save_tail(v, 12));
    assert(spec_save_tail(v, 10) == (spec_line_content(v, 10) + seq!['\n']) + spec_save_tail(v, 11));
    assert(spec_save_tail(v, 9) == (spec_line_content(v, 9) + seq!['\n']) + spec_save_tail(v, 10));
    assert(spec_save_tail(v, 8) == (spec_line_content(v, 8) + seq!['\n']) + spec_save_tail(v, 9));
    assert(spec_save_tail(v, 7) == (spec_line_content(v, 7) + seq!['\n']) + spec_save_tail(v, 8));
    assert(spec_save_tail(v, 6) == (spec_line_content(v, 6) + seq!['\n']) + spec_save_tail(v, 7));
    assert(spec_save_tail(v, 5) == (spec_line_content(v, 5) + seq!['\n']) + spec_save_tail(v, 6));
    assert(spec_save_tail(v, 4) == (spec_line_content(v, 4) + seq!['\n']) + spec_save_tail(v, 5));
    assert(spec_save_tail(v, 3) == (spec_line_content(v, 3) + seq!['\n']) + spec_save_tail(v, 4));
    assert(spec_save_tail(v, 2) == (spec_line_content(v, 2) + seq!['\n']) + spec_save_tail(v, 3));
    assert(spec_save_tail(v, 1) == (spec_line_content(v, 1) + seq!['\n']) + spec_save_tail(v, 2));
    assert(spec_save_tail(v, 0) == (spec_line_content(v, 0) + seq!['\n']) + spec_save_tail(v, 1));
    assert(spec_serialize_saved_run(v) =~= spec_save_tail(v, 0));
}

/// Reading the file from line k onwards, with the first k lines already
/// gathered, yields the whole snapshot's fields.
proof fn lemma_parse_tail(v: SavedRunV, k: int)
    requires
        0 <= k <= 14,
        1 <= v.tri_level <= 4,
        1 <= v.recall_level <= 4,
        1 <= v.infinite_round,
    ensures
        spec_parse_lines(spec_line_acc(v, k), spec_split(spec_save_tail(v, k), '\n')) == Some(
            RunAcc { tiles: v.tiles, ..spec_line_acc(v, 14) },
        ),
    decreases 14 - k,
{
    if k == 14 {
        lemma_parse_tiles_section(spec_line_acc(v, 14), v.tiles);
        assert(spec_line_acc(v, 14).tiles + v.tiles =~= v.tiles);
        assert(RunAcc { tiles: spec_line_acc(v, 14).tiles + v.tiles, ..spec_line_acc(v, 14) }
            =~= RunAcc { tiles: v.tiles, ..spec_line_acc(v, 14) });
    } else {
        lemma_fixed_line(v, k);
        let content = spec_line_content(v, k);
        let rest = spec_save_tail(v, k + 1);
        crate::text::lemma_split_sep_head(content, rest, '\n');
        lemma_parse_tail(v, k + 1);
        assert((seq![content] + spec_split(rest, '\n'))[0] == content);
        assert((seq![content] + spec_split(rest, '\n')).drop_first() =~= spec_split(rest, '\n'));
    }
}

/// A saved run written by this codec reads back identically: the whole
/// snapshot round-trips through the save file, provided its levels are in
/// their 1 to 4 range and its round counter is at least 1.
pub proof fn lemma_saved_run_round_trip(v: SavedRunV)
    requires
        1 <= v.tri_level <= 4,
        1 <= v.recall_level <= 4,
        1 <= v.infinite_round,
    ensures
        spec_parse_saved_run(spec_serialize_saved_run(v)) == Some(v),
{
    lemma_serialize_as_tail(v);
    lemma_parse_tail(v, 0);
    let acc_final = RunAcc { tiles: v.tiles, ..spec_line_acc(v, 14) };
    assert(spec_line_acc(v, 0) == spec_init_acc());
    assert(acc_final.version == Some(SAVE_VERSION) && acc_final.started
        && acc_final.difficulty is Some);
    assert(SavedRunV {
        difficulty: acc_final.difficulty->0,
        tri_level: acc_final.tri_level,
        recall_level: acc_final.recall_level,
        infinite_round: acc_final.infinite_round,
        seconds_elapsed: acc_final.seconds_elapsed,
        run_mismatches: acc_final.run_mismatches,
        run_matches: acc_final.run_matches,
        impossible_mismatch_count: acc_final.impossible_mismatch_count,
        impossible_punish_stage: acc_final.impossible_punish_stage,
        impossible_last_first_index: acc_final.impossible_last_first_index,
        impossible_same_first_streak: acc_final.impossible_same_first_streak,
        flipped_indices: acc_final.flipped_indices,
        tiles: acc_final.tiles,
    } =~= v);
}

/// The snapshot a state would be saved as.
pub open spec fn spec_run_of_state(st: crate::state::AppState) -> SavedRunV {
    SavedRunV {
        difficulty: st.difficulty,
        tri_level: st.tri_level,
        recall_level: st.recall_level,
        infinite_round: st.infinite_round,
        seconds_elapsed: st.seconds_elapsed,
        run_mismatches: st.run_mismatches,
        run_matches: st.run_matches,
        impossible_mismatch_count: st.impossible_mismatch_count,
        impossible_punish_stage: st.impossible_punish_stage,
        impossible_last_first_index: st.impossible_last_first_index,
        impossible_same_first_streak: st.impossible_same_first_streak,
        flipped_indices: st.flipped_indices@,
        tiles: st.tiles@.map_values(|t: Tile| (t.status, t.value@)),
    }
}

/// A content-equal copy of a tile vector.
fn clone_tiles(tiles: &Vec<Tile>) -> (r: Vec<Tile>)
    ensures
        r@.len() == tiles@.len(),
        forall|i: int|
            0 <= i < tiles@.len() ==> (#[trigger] r@[i]).status == tiles@[i].status
                && r@[i].value@ == tiles@[i].value@,
{
    let mut r: Vec<Tile> = Vec::new();
    let mut i: usize = 0;
    while i < tiles.len()
        invariant
            i <= tiles@.len(),
            r@.len() == i,
            forall|k: int|
                0 <= k < i ==> (#[trigger] r@[k]).status == tiles@[k].status && r@[k].value@
                    == tiles@[k].value@,
        decreases tiles@.len() - i,
    {
        let value = tiles[i].value.clone();
        let status = tiles[i].status;
        r.push(Tile { value, status });
        i += 1;
    }
    r
}

/// A copy of an index vector.
fn clone_indices(idxs: &Vec<usize>) -> (r: Vec<usize>)
    ensures
        r@ == idxs@,
{
    let mut r: Vec<usize> = Vec::new();
    let mut i: usize = 0;
    while i < idxs.len()
        invariant
            i <= idxs@.len(),
            r@ == idxs@.take(i as int),
        decreases idxs@.len() - i,
    {
        r.push(idxs[i]);
        proof {
            assert(r@ =~= idxs@.take(i + 1));
        }
        i += 1;
    }
    proof {
        assert(idxs@.take(idxs@.len() as int) =~= idxs@);
    }
    r
}

/// Write the state's current run as save-file text, when a session is in
/// progress and a board exists; otherwise nothing is to be saved.
pub fn save_current_run(st: &crate::state::AppState) -> (r: Option<String>)
    ensures
        (!st.active_session_started || st.tiles@.len() == 0) ==> r is None,
        (st.active_session_started && st.tiles@.len() > 0) ==> (r matches Some(text)
            && text@ == spec_serialize_saved_run(spec_run_of_state(*st))),
{
    if !st.active_session_started || st.tiles.len() == 0 {
        return None;
    }
    let run = SavedRun {
        difficulty: st.difficulty,
        tri_level: st.tri_level,
        recall_level: st.recall_level,
        infinite_round: st.infinite_round,
        seconds_elapsed: st.seconds_elapsed,
        run_mismatches: st.run_mismatches,
        run_matches: st.run_matches,
        impossible_mismatch_count: st.impossible_mismatch_count,
        impossible_punish_stage: st.impossible_punish_stage,
        impossible_last_first_index: st.impossible_last_first_index,
        impossible_same_first_streak: st.impossible_same_first_streak,
        flipped_indices: clone_indices(&st.flipped_indices),
        tiles: clone_tiles(&st.tiles),
    };
    proof {
        assert(run.view_v().tiles =~= spec_run_of_state(*st).tiles);
        assert(run.view_v() =~= spec_run_of_state(*st));
    }
    Some(serialize_saved_run(&run))
}

/// The saved flip group filtered against a restored board: only indices
/// that land on a flipped tile survive, in order.
pub open spec fn spec_filter_flipped(idxs: Seq<usize>, tiles: Seq<Tile>) -> Seq<usize>
    decreases idxs.len(),
{
    if idxs.len() == 0 {
        Seq::empty()
    } else {
        let rest = spec_filter_flipped(idxs.drop_last(), tiles);
        if idxs.last() < tiles.len() && tiles[idxs.last() as int].status == TileStatus::Flipped {
            rest.push(idxs.last())
        } else {
            rest
        }
    }
}

/// The grid shape a resume of this snapshot rebuilds: the shape its
/// difficulty calls for at its (clamped) levels.
pub open spec fn spec_resume_shape(run: SavedRun) -> (i32, i32, usize) {
    match run.difficulty {
        Difficulty::Tri => crate::state::AppState::spec_tri_config(spec_clamp14(run.tri_level)),
        Difficulty::RecallMode => crate::state::AppState::spec_recall_config(
            spec_clamp14(run.recall_level),
        ),
        _ => run.difficulty.spec_config(),
    }
}

/// Whether a snapshot can be resumed: its board must fill the grid its
/// difficulty calls for, and its surviving flip group must not exceed a
/// full match group (a larger group can never arise from the machine).
pub open spec fn spec_resume_accepted(run: SavedRun) -> bool {
    let shape = spec_resume_shape(run);
    &&& run.tiles@.len() == shape.0 * shape.1
    &&& spec_filter_flipped(run.flipped_indices@, run.tiles@).len() <= shape.2
}

/// Resume a saved run: adopt its mode and levels, rebuild for its grid, and
/// take over its board, flip group and counters. The resume is accepted
/// exactly when the saved board fits the grid the mode calls for and the
/// surviving flip group does not exceed a full match group; a run saved
/// mid-resolution, with a complete group still face up, comes back with
/// input locked so the caller finishes resolving that group first. A
/// refused resume installs nothing of the run and leaves the state at the
/// start of a fresh round for the snapshot's difficulty instead.
pub fn restore_saved_run(
    st: &mut crate::state::AppState,
    run: SavedRun,
    pool: &Vec<String>,
) -> (restored: bool)
    requires
        old(st).wf(),
        pool@.len() >= 1,
        forall|i: int| 0 <= i < pool@.len() ==> (#[trigger] pool@[i])@.len() > 0,
    ensures
        final(st).wf(),
        final(st).difficulty == run.difficulty,
        final(st).tri_level == spec_clamp14(run.tri_level),
        final(st).recall_level == spec_clamp14(run.recall_level),
        (final(st).grid_cols, final(st).grid_rows, final(st).match_size) == spec_resume_shape(run),
        run.difficulty == Difficulty::RecallMode ==> final(st).infinite_round == spec_max1(
            run.infinite_round,
        ),
        run.difficulty != Difficulty::RecallMode ==> final(st).infinite_round == old(
            st,
        ).infinite_round,
        restored == spec_resume_accepted(run),
        restored ==> ({
            &&& final(st).tiles@ == run.tiles@
            &&& final(st).flipped_indices@ == spec_filter_flipped(
                run.flipped_indices@,
                run.tiles@,
            )
            &&& final(st).seconds_elapsed == run.seconds_elapsed
            &&& final(st).run_mismatches == run.run_mismatches
            &&& final(st).run_matches == run.run_matches
            &&& final(st).impossible_mismatch_count == run.impossible_mismatch_count
            &&& final(st).impossible_punish_stage == run.impossible_punish_stage
            &&& final(st).impossible_last_first_index == run.impossible_last_first_index
            &&& final(st).impossible_same_first_streak == run.impossible_same_first_streak
            &&& final(st).lock_input == (spec_filter_flipped(
                run.flipped_indices@,
                run.tiles@,
            ).len() == spec_resume_shape(run).2 as nat)
            &&& final(st).active_session_started
        }),
        !restored ==> ({
            &&& fresh_board(
                final(st).tiles@,
                final(st).grid_cols as int,
                final(st).grid_rows as int,
                final(st).match_size as int,
            )
            &&& final(st).flipped_indices@.len() == 0
            &&& !final(st).lock_input
            &&& final(st).pressure_cleared()
            &&& final(st).run_mismatches == 0
            &&& final(st).run_matches == 0
            &&& final(st).seconds_elapsed == old(st).seconds_elapsed
            &&& final(st).active_session_started == old(st).active_session_started
        }),
{
    st.tri_level = if run.tri_level < 1 {
        1
    } else if run.tri_level > 4 {
        4
    } else {
        run.tri_level
    };
    st.recall_level = if run.recall_level < 1 {
        1
    } else if run.recall_level > 4 {
        4
    } else {
        run.recall_level
    };
    st.set_difficulty(run.difficulty, pool);
    if run.difficulty == Difficulty::RecallMode {
        st.infinite_round = if run.infinite_round == 0 {
            1
        } else {
            run.infinite_round
        };
    }
    if st.tiles.len() != run.tiles.len() {
        return false;
    }

    let ghost run_tiles = run.tiles@;
    let mut filtered: Vec<usize> = Vec::new();
    let mut i: usize = 0;
    proof {
        assert(run.flipped_indices@.take(0) =~= Seq::<usize>::empty());
    }
    while i < run.flipped_indices.len()
        invariant
            i <= run.flipped_indices@.len(),
            filtered@ == spec_filter_flipped(run.flipped_indices@.take(i as int), run_tiles),
            run_tiles == run.tiles@,
            forall|k: int| 0 <= k < filtered@.len() ==> (#[trigger] filtered@[k]) < run_tiles.len(),
        decreases run.flipped_indices@.len() - i,
    {
        let idx = run.flipped_indices[i];
        proof {
            assert(run.flipped_indices@.take(i + 1).drop_last() =~= run.flipped_indices@.take(
                i as int,
            ));
            assert(run.flipped_indices@.take(i + 1).last() == idx);
        }
        if idx < run.tiles.len() {
            if run.tiles[idx].status == TileStatus::Flipped {
                filtered.push(idx);
            }
        }
        i += 1;
    }
    proof {
        assert(run.flipped_indices@.take(run.flipped_indices@.len() as int)
            =~= run.flipped_indices@);
    }

    if filtered.len() > st.match_size {
        return false;
    }
    let group_pending = filtered.len() == st.match_size;

    st.tiles = run.tiles;
    st.flipped_indices = filtered;
    st.seconds_elapsed = run.seconds_elapsed;
    st.run_mismatches = run.run_mismatches;
    st.run_matches = run.run_matches;
    st.impossible_mismatch_count = run.impossible_mismatch_count;
    st.impossible_punish_stage = run.impossible_punish_stage;
    st.impossible_last_first_index = run.impossible_last_first_index;
    st.impossible_same_first_streak = run.impossible_same_first_streak;
    st.lock_input = group_pending;
    st.active_session_started = true;
    true
}

/// None of the written tile lines (nor the trailing empty line) carries the
/// schema-version key.
proof fn lemma_tile_lines_no_version(tiles: Seq<(TileStatus, Seq<char>)>)
    ensures
        forall|i: int|
            0 <= i < spec_split(spec_tile_lines(tiles), '\n').len() ==> !spec_line_key_is(
                #[trigger] spec_split(spec_tile_lines(tiles), '\n')[i],
                "version"@,
            ),
    decreases tiles.len(),
{
    if tiles.len() == 0 {
        let empty = Seq::<char>::empty();
        assert(spec_tile_lines(tiles) =~= empty);
        crate::text::lemma_split_whole(empty, '\n');
        assert(crate::text::spec_find(empty, '=') == -1);
        assert(!spec_line_key_is(empty, "version"@));
        assert(spec_split(spec_tile_lines(tiles), '\n') == seq![empty]);
    } else {
        lemma_tile_lines_head(tiles);
        let content = "tile"@ + seq!['='] + spec_encode_tile(tiles[0].0, tiles[0].1);
        let rest = spec_tile_lines(tiles.drop_first());
        assert(spec_tile_lines(tiles) =~= content + seq!['\n'] + rest) by {
            reveal_strlit("tile");
            assert(spec_kv_line("tile"@, spec_encode_tile(tiles[0].0, tiles[0].1)) =~= content
                + seq!['\n']);
        }
        lemma_tile_line_content_no_newline(tiles[0]);
        crate::text::lemma_split_sep_head(content, rest, '\n');
        lemma_apply_tile_line(spec_init_acc(), tiles[0]);
        lemma_tile_lines_no_version(tiles.drop_first());
        let lines = seq![content] + spec_split(rest, '\n');
        assert(spec_split(spec_tile_lines(tiles), '\n') == lines);
        assert forall|i: int| 0 <= i < lines.len() implies !spec_line_key_is(
            #[trigger] lines[i],
            "version"@,
        ) by {
            if i == 0 {
                assert(lines[0] == content);
            } else {
                assert(lines[i] == spec_split(rest, '\n')[i - 1]);
            }
        }
    }
}

/// No line of a written save after the version line carries the
/// schema-version key.
proof fn lemma_tail_lines_no_version(v: SavedRunV, k: int)
    requires
        1 <= k <= 14,
        1 <= v.tri_level <= 4,
        1 <= v.recall_level <= 4,
        1 <= v.infinite_round,
    ensures
        forall|i: int|
            0 <= i < spec_split(spec_save_tail(v, k), '\n').len() ==> !spec_line_key_is(
                #[trigger] spec_split(spec_save_tail(v, k), '\n')[i],
                "version"@,
            ),
    decreases 14 - k,
{
    if k == 14 {
        lemma_tile_lines_no_version(v.tiles);
    } else {
        lemma_fixed_line(v, k);
        let content = spec_line_content(v, k);
        let rest = spec_save_tail(v, k + 1);
        crate::text::lemma_split_sep_head(content, rest, '\n');
        lemma_tail_lines_no_version(v, k + 1);
        let lines = seq![content] + spec_split(rest, '\n');
        assert(spec_split(spec_save_tail(v, k), '\n') == lines);
        assert forall|i: int| 0 <= i < lines.len() implies !spec_line_key_is(
            #[trigger] lines[i],
            "version"@,
        ) by {
            if i == 0 {
                assert(lines[0] == content);
            } else {
                assert(lines[i] == spec_split(rest, '\n')[i - 1]);
            }
        }
    }
}

/// Lines that never carry the schema-version key never change the gathered
/// version, whatever else they do.
proof fn lemma_parse_lines_keep_version(acc: RunAcc, lines: Seq<Seq<char>>)
    requires
        forall|i: int|
            0 <= i < lines.len() ==> !spec_line_key_is(#[trigger] lines[i], "version"@),
    ensures
        spec_parse_lines(acc, lines) matches Some(a) ==> a.version == acc.version,
    decreases lines.len(),
{
    if lines.len() > 0 {
        assert(!spec_line_key_is(lines[0], "version"@));
        if spec_apply_line(acc, lines[0]) is Some {
            let a1 = spec_apply_line(acc, lines[0])->0;
            assert(a1.version == acc.version);
            assert forall|i: int| 0 <= i < lines.drop_first().len() implies !spec_line_key_is(
                #[trigger] lines.drop_first()[i],
                "version"@,
            ) by {
                assert(lines.drop_first()[i] == lines[i + 1]);
            }
            lemma_parse_lines_keep_version(a1, lines.drop_first());
        }
    }
}

/// A written save whose version value is replaced by any newline-free text
/// that does not read back as the current schema version is rejected as a
/// whole: a version mismatch reads as no save.
pub proof fn lemma_version_mismatch_rejected(v: SavedRunV, w: Seq<char>)
    requires
        1 <= v.tri_level <= 4,
        1 <= v.recall_level <= 4,
        1 <= v.infinite_round,
        forall|i: int| 0 <= i < w.len() ==> (#[trigger] w[i]) != '\n',
        spec_parse_u8(w) != Some(SAVE_VERSION),
    ensures
        spec_parse_saved_run(spec_kv_line("version"@, w) + spec_save_tail(v, 1)) is None,
{
    reveal_strlit("version");
    let content = "version"@ + seq!['='] + w;
    let tail = spec_save_tail(v, 1);
    let s = spec_kv_line("version"@, w) + tail;
    assert(s =~= content + seq!['\n'] + tail);
    assert(forall|i: int|
        0 <= i < "version"@.len() ==> ((#[trigger] "version"@[i]) != '\n' && "version"@[i]
            != '='));
    lemma_kv_content_no_newline("version"@, w);
    crate::text::lemma_split_sep_head(content, tail, '\n');
    lemma_kv_split("version"@, w);
    let acc0 = spec_init_acc();
    let acc1 = RunAcc { version: spec_parse_u8(w), ..acc0 };
    assert(spec_apply_line(acc0, content) == Some(acc1));
    let lines_rest = spec_split(tail, '\n');
    assert(spec_split(s, '\n') == seq![content] + lines_rest);
    assert((seq![content] + lines_rest)[0] == content);
    assert((seq![content] + lines_rest).drop_first() =~= lines_rest);
    assert(spec_parse_lines(acc0, spec_split(s, '\n')) == spec_parse_lines(acc1, lines_rest));
    lemma_tail_lines_no_version(v, 1);
    lemma_parse_lines_keep_version(acc1, lines_rest);
    if spec_parse_lines(acc1, lines_rest) is Some {
        let a = spec_parse_lines(acc1, lines_rest)->0;
        assert(a.version == spec_parse_u8(w));
        assert(a.version != Some(SAVE_VERSION));
    }
}

/// A save whose version line is missing altogether is likewise rejected:
/// no later line can set the version, so the file reads as no save.
pub proof fn lemma_missing_version_rejected(v: SavedRunV)
    requires
        1 <= v.tri_level <= 4,
        1 <= v.recall_level <= 4,
        1 <= v.infinite_round,
    ensures
        spec_parse_saved_run(spec_save_tail(v, 1)) is None,
{
    lemma_tail_lines_no_version(v, 1);
    lemma_parse_lines_keep_version(spec_init_acc(), spec_split(spec_save_tail(v, 1), '\n'));
    if spec_parse_lines(spec_init_acc(), spec_split(spec_save_tail(v, 1), '\n')) is Some {
        let a = spec_parse_lines(spec_init_acc(), spec_split(spec_save_tail(v, 1), '\n'))->0;
        assert(a.version == spec_init_acc().version);
        assert(a.version != Some(SAVE_VERSION));
    }
}

} // verus!
