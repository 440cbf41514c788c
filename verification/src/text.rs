use vstd::prelude::*;
use vstd::string::*;

verus! {

/// Relies on `String::push`: appends exactly the given character.
#[verifier::external_body]
pub fn push_char(s: &mut String, c: char)
    ensures
        final(s)@ == old(s)@.push(c),
{
    s.push(c);
}

/// The characters of a string slice, as a vector.
pub fn str_to_chars(s: &str) -> (r: Vec<char>)
    ensures
        r@ == s@,
{
    let n = s.unicode_len();
    let mut r: Vec<char> = Vec::new();
    let mut i: usize = 0;
    while i < n
        invariant
            i <= n,
            n == s@.len(),
            r@ == s@.take(i as int),
        decreases n - i,
    {
        r.push(s.get_char(i));
        proof {
            assert(r@ =~= s@.take(i + 1));
        }
        i += 1;
    }
    proof {
        assert(s@.take(n as int) =~= s@);
    }
    r
}

/// The characters of a vector, as an owned string.
pub fn chars_to_string(v: &Vec<char>) -> (r: String)
    ensures
        r@ == v@,
{
    let mut s = String::new();
    let mut i: usize = 0;
    while i < v.len()
        invariant
            i <= v@.len(),
            s@ == v@.take(i as int),
        decreases v@.len() - i,
    {
        push_char(&mut s, v[i]);
        proof {
            assert(s@ =~= v@.take(i + 1));
        }
        i += 1;
    }
    proof {
        assert(v@.take(v@.len() as int) =~= v@);
    }
    s
}

/// A decimal digit.
pub open spec fn is_digit_char(c: char) -> bool {
    '0' <= c && c <= '9'
}

/// The numeric value of a decimal digit character.
pub open spec fn digit_val(c: char) -> nat {
    (c as nat - '0' as nat) as nat
}

/// The decimal digit character for a value below ten.
pub open spec fn digit_char(d: nat) -> char {
    if d == 0 {
        '0'
    } else if d == 1 {
        '1'
    } else if d == 2 {
        '2'
    } else if d == 3 {
        '3'
    } else if d == 4 {
        '4'
    } else if d == 5 {
        '5'
    } else if d == 6 {
        '6'
    } else if d == 7 {
        '7'
    } else if d == 8 {
        '8'
    } else {
        '9'
    }
}

/// The decimal notation of a number, most significant digit first.
pub open spec fn spec_num_chars(n: nat) -> Seq<char>
    decreases n,
{
    if n < 10 {
        seq![digit_char(n)]
    } else {
        spec_num_chars(n / 10).push(digit_char(n % 10))
    }
}

/// Every character is a decimal digit.
pub open spec fn all_digits(s: Seq<char>) -> bool {
    forall|i: int| 0 <= i < s.len() ==> is_digit_char(#[trigger] s[i])
}

/// The value of a digit string, reading left to right.
pub open spec fn digits_val(s: Seq<char>) -> nat
    decreases s.len(),
{
    if s.len() == 0 {
        0
    } else {
        digits_val(s.drop_last()) * 10 + digit_val(s.last())
    }
}

/// What a non-negative decimal number parser accepts: one or more digits,
/// nothing else, with a value that fits the target type.
pub open spec fn spec_parse_u64(s: Seq<char>) -> Option<u64> {
    if s.len() > 0 && all_digits(s) && digits_val(s) <= u64::MAX {
        Some(digits_val(s) as u64)
    } else {
        None
    }
}

pub open spec fn spec_parse_u32(s: Seq<char>) -> Option<u32> {
    if s.len() > 0 && all_digits(s) && digits_val(s) <= u32::MAX {
        Some(digits_val(s) as u32)
    } else {
        None
    }
}

pub open spec fn spec_parse_u8(s: Seq<char>) -> Option<u8> {
    if s.len() > 0 && all_digits(s) && digits_val(s) <= u8::MAX {
        Some(digits_val(s) as u8)
    } else {
        None
    }
}

pub open spec fn spec_parse_usize(s: Seq<char>) -> Option<usize> {
    if s.len() > 0 && all_digits(s) && digits_val(s) <= usize::MAX {
        Some(digits_val(s) as usize)
    } else {
        None
    }
}

fn digit_to_char(d: u8) -> (c: char)
    requires
        d < 10,
    ensures
        c == digit_char(d as nat),
{
    if d == 0 {
        '0'
    } else if d == 1 {
        '1'
    } else if d == 2 {
        '2'
    } else if d == 3 {
        '3'
    } else if d == 4 {
        '4'
    } else if d == 5 {
        '5'
    } else if d == 6 {
        '6'
    } else if d == 7 {
        '7'
    } else if d == 8 {
        '8'
    } else {
        '9'
    }
}

/// A digit character round-trips through its value.
pub proof fn lemma_digit_char_val(d: nat)
    requires
        d < 10,
    ensures
        is_digit_char(digit_char(d)),
        digit_val(digit_char(d)) == d,
{
}

/// Decimal notation consists of digits and reads back to the number itself.
pub proof fn lemma_num_chars_val(n: nat)
    ensures
        spec_num_chars(n).len() >= 1,
        all_digits(spec_num_chars(n)),
        digits_val(spec_num_chars(n)) == n,
    decreases n,
{
    if n < 10 {
        lemma_digit_char_val(n);
        let s = spec_num_chars(n);
        assert(s.drop_last() =~= Seq::<char>::empty());
        assert(s.last() == digit_char(n));
        assert(digits_val(s) == digits_val(Seq::<char>::empty()) * 10 + digit_val(digit_char(n)));
    } else {
        lemma_num_chars_val(n / 10);
        lemma_digit_char_val(n % 10);
        let s = spec_num_chars(n);
        assert(s.drop_last() =~= spec_num_chars(n / 10));
        assert(s.last() == digit_char(n % 10));
        assert(digits_val(s) == digits_val(spec_num_chars(n / 10)) * 10 + digit_val(
            digit_char(n % 10),
        ));
        assert(n == (n / 10) * 10 + n % 10) by (nonlinear_arith);
    }
}

/// Append the decimal notation of `n` to `out`.
pub fn push_u64_chars(n: u64, out: &mut Vec<char>)
    ensures
        final(out)@ == old(out)@ + spec_num_chars(n as nat),
    decreases n,
{
    if n < 10 {
        out.push(digit_to_char(n as u8));
        proof {
            assert(final(out)@ =~= old(out)@ + spec_num_chars(n as nat));
        }
    } else {
        push_u64_chars(n / 10, out);
        out.push(digit_to_char((n % 10) as u8));
        proof {
            assert(final(out)@ =~= old(out)@ + spec_num_chars(n as nat));
        }
    }
}

/// A longer digit string never reads back to a smaller value than any of its
/// prefixes.
proof fn lemma_digits_val_prefix(s: Seq<char>, i: int)
    requires
        0 <= i <= s.len(),
    ensures
        digits_val(s) >= digits_val(s.take(i)),
    decreases s.len() - i,
{
    if i == s.len() {
        assert(s.take(i) =~= s);
    } else {
        assert(s.take(i + 1).drop_last() =~= s.take(i));
        assert(digits_val(s.take(i + 1)) == digits_val(s.take(i)) * 10 + digit_val(s.take(i + 1).last()));
        assert(digits_val(s.take(i)) * 10 >= digits_val(s.take(i))) by (nonlinear_arith);
        lemma_digits_val_prefix(s, i + 1);
    }
}

/// Parse an unsigned decimal number: one or more digits, nothing else,
/// rejecting values that do not fit.
pub fn parse_u64_chars(v: &Vec<char>) -> (r: Option<u64>)
    ensures
        r == spec_parse_u64(v@),
{
    if v.len() == 0 {
        return None;
    }
    let mut acc: u64 = 0;
    let mut i: usize = 0;
    while i < v.len()
        invariant
            i <= v@.len(),
            all_digits(v@.take(i as int)),
            acc == digits_val(v@.take(i as int)),
        decreases v@.len() - i,
    {
        let c = v[i];
        if !(c >= '0' && c <= '9') {
            return None;
        }
        let d: u64 = (c as u32 as u64) - ('0' as u32 as u64);
        proof {
            assert(v@.take(i + 1).drop_last() =~= v@.take(i as int));
            assert(v@.take(i + 1).last() == v@[i as int]);
        }
        if acc > (u64::MAX - d) / 10 {
            proof {
                assert(digits_val(v@.take(i + 1)) == acc * 10 + d);
                assert(acc * 10 + d > u64::MAX) by (nonlinear_arith)
                    requires
                        acc > (u64::MAX - d) / 10,
                        d < 10,
                ;
                lemma_digits_val_prefix(v@, i + 1);
            }
            return None;
        }
        proof {
            assert(acc * 10 + d <= u64::MAX) by (nonlinear_arith)
                requires
                    acc <= (u64::MAX - d) / 10,
                    d < 10,
            ;
        }
        acc = acc * 10 + d;
        i += 1;
    }
    proof {
        assert(v@.take(v@.len() as int) =~= v@);
    }
    Some(acc)
}

pub fn parse_u32_chars(v: &Vec<char>) -> (r: Option<u32>)
    ensures
        r == spec_parse_u32(v@),
{
    match parse_u64_chars(v) {
        Some(x) => {
            if x <= u32::MAX as u64 {
                Some(x as u32)
            } else {
                None
            }
        },
        None => {
            proof {
                if v@.len() > 0 && all_digits(v@) && digits_val(v@) <= u32::MAX {
                    assert(digits_val(v@) <= u64::MAX);
                }
            }
            None
        },
    }
}

pub fn parse_u8_chars(v: &Vec<char>) -> (r: Option<u8>)
    ensures
        r == spec_parse_u8(v@),
{
    match parse_u64_chars(v) {
        Some(x) => {
            if x <= u8::MAX as u64 {
                Some(x as u8)
            } else {
                None
            }
        },
        None => {
            proof {
                if v@.len() > 0 && all_digits(v@) && digits_val(v@) <= u8::MAX {
                    assert(digits_val(v@) <= u64::MAX);
                }
            }
            None
        },
    }
}

pub fn parse_usize_chars(v: &Vec<char>) -> (r: Option<usize>)
    ensures
        r == spec_parse_usize(v@),
{
    match parse_u64_chars(v) {
        Some(x) => {
            if x <= usize::MAX as u64 {
                Some(x as usize)
            } else {
                None
            }
        },
        None => {
            proof {
                if v@.len() > 0 && all_digits(v@) && digits_val(v@) <= usize::MAX {
                    assert(digits_val(v@) <= u64::MAX);
                }
            }
            None
        },
    }
}

/// The whitespace characters the trimmer strips.
pub open spec fn is_space_char(c: char) -> bool {
    c == ' ' || c == '\t' || c == '\n' || c == '\r'
}

/// `s` without leading whitespace.
pub open spec fn spec_trim_front(s: Seq<char>) -> Seq<char>
    decreases s.len(),
{
    if s.len() > 0 && is_space_char(s[0]) {
        spec_trim_front(s.drop_first())
    } else {
        s
    }
}

/// `s` without trailing whitespace.
pub open spec fn spec_trim_back(s: Seq<char>) -> Seq<char>
    decreases s.len(),
{
    if s.len() > 0 && is_space_char(s.last()) {
        spec_trim_back(s.drop_last())
    } else {
        s
    }
}

/// `s` without leading and trailing whitespace.
pub open spec fn spec_trim(s: Seq<char>) -> Seq<char> {
    spec_trim_back(spec_trim_front(s))
}

/// A string without any whitespace characters trims to itself.
pub proof fn lemma_trim_id(s: Seq<char>)
    requires
        forall|i: int| 0 <= i < s.len() ==> !is_space_char(#[trigger] s[i]),
    ensures
        spec_trim(s) == s,
{
    if s.len() > 0 {
        assert(!is_space_char(s[0]));
        assert(!is_space_char(s.last()));
    }
}

/// Strip leading and trailing whitespace.
pub fn trim_chars(s: &Vec<char>) -> (r: Vec<char>)
    ensures
        r@ == spec_trim(s@),
{
    let mut start: usize = 0;
    proof {
        assert(s@.skip(0) =~= s@);
    }
    while start < s.len() && (s[start] == ' ' || s[start] == '\t' || s[start] == '\n' || s[start]
        == '\r')
        invariant
            start <= s@.len(),
            spec_trim_front(s@) == spec_trim_front(s@.skip(start as int)),
        decreases s@.len() - start,
    {
        proof {
            assert(s@.skip(start as int)[0] == s@[start as int]);
            assert(s@.skip(start as int).drop_first() =~= s@.skip(start + 1));
        }
        start += 1;
    }
    proof {
        if start < s@.len() {
            assert(s@.skip(start as int)[0] == s@[start as int]);
        }
        assert(spec_trim_front(s@.skip(start as int)) == s@.skip(start as int));
    }
    let mut end: usize = s.len();
    proof {
        assert(s@.skip(start as int).take(s@.len() - start) =~= s@.skip(start as int));
    }
    while end > start && (s[end - 1] == ' ' || s[end - 1] == '\t' || s[end - 1] == '\n' || s[end
        - 1] == '\r')
        invariant
            start <= end <= s@.len(),
            spec_trim_front(s@) == s@.skip(start as int),
            spec_trim_back(s@.skip(start as int)) == spec_trim_back(
                s@.skip(start as int).take(end - start),
            ),
        decreases end,
    {
        proof {
            let seg = s@.skip(start as int).take(end - start);
            assert(seg.last() == s@[end - 1]);
            assert(seg.drop_last() =~= s@.skip(start as int).take(end - 1 - start));
        }
        end -= 1;
    }
    proof {
        let seg = s@.skip(start as int).take(end - start);
        if seg.len() > 0 {
            assert(seg.last() == s@[end - 1]);
        }
        assert(spec_trim_back(seg) == seg);
    }
    let mut r: Vec<char> = Vec::new();
    let mut i: usize = start;
    while i < end
        invariant
            start <= i <= end <= s@.len(),
            r@ == s@.skip(start as int).take(i - start),
        decreases end - i,
    {
        r.push(s[i]);
        proof {
            assert(r@ =~= s@.skip(start as int).take(i + 1 - start));
        }
        i += 1;
    }
    r
}

/// Index of the first occurrence of `sep`, or -1 when absent.
pub open spec fn spec_find(s: Seq<char>, sep: char) -> int
    decreases s.len(),
{
    if s.len() == 0 {
        -1
    } else if s[0] == sep {
        0
    } else {
        let r = spec_find(s.drop_first(), sep);
        if r == -1 {
            -1
        } else {
            r + 1
        }
    }
}

/// Where `spec_find` points: at the first separator, if any.
pub proof fn lemma_find_props(s: Seq<char>, sep: char)
    ensures
        spec_find(s, sep) == -1 ==> forall|i: int| 0 <= i < s.len() ==> s[i] != sep,
        spec_find(s, sep) != -1 ==> {
            let f = spec_find(s, sep);
            &&& 0 <= f < s.len()
            &&& s[f] == sep
            &&& forall|i: int| 0 <= i < f ==> s[i] != sep
        },
    decreases s.len(),
{
    if s.len() == 0 {
    } else if s[0] == sep {
    } else {
        lemma_find_props(s.drop_first(), sep);
        let fd = spec_find(s.drop_first(), sep);
        assert(forall|j: int| 0 <= j < s.drop_first().len() ==> s.drop_first()[j] == s[j + 1]);
        if fd == -1 {
            assert forall|i: int| 0 <= i < s.len() implies s[i] != sep by {
                if i > 0 {
                    assert(s.drop_first()[i - 1] != sep);
                }
            }
        } else {
            assert(s[fd + 1] == s.drop_first()[fd]);
            assert forall|i: int| 0 <= i < fd + 1 implies s[i] != sep by {
                if i > 0 {
                    assert(s.drop_first()[i - 1] != sep);
                }
            }
        }
    }
}

/// Find the first occurrence of `sep`.
pub fn find_char(s: &Vec<char>, sep: char) -> (r: Option<usize>)
    ensures
        match r {
            Some(f) => spec_find(s@, sep) == f,
            None => spec_find(s@, sep) == -1,
        },
{
    let mut i: usize = 0;
    proof {
        assert(s@.skip(0) =~= s@);
    }
    while i < s.len()
        invariant
            i <= s@.len(),
            spec_find(s@, sep) == (if spec_find(s@.skip(i as int), sep) == -1 {
                -1
            } else {
                spec_find(s@.skip(i as int), sep) + i
            }),
        decreases s@.len() - i,
    {
        proof {
            assert(s@.skip(i as int)[0] == s@[i as int]);
        }
        if s[i] == sep {
            proof {
                assert(spec_find(s@.skip(i as int), sep) == 0);
            }
            return Some(i);
        }
        proof {
            assert(s@.skip(i as int).drop_first() =~= s@.skip(i + 1));
            lemma_find_props(s@.skip(i + 1), sep);
            assert(spec_find(s@.skip(i as int), sep) == (if spec_find(s@.skip(i + 1), sep) == -1 {
                -1int
            } else {
                spec_find(s@.skip(i + 1), sep) + 1
            }));
        }
        i += 1;
    }
    proof {
        assert(s@.skip(s@.len() as int).len() == 0);
    }
    None
}

/// The characters of `s` from `from` (inclusive) to `to` (exclusive).
pub fn subrange_chars(s: &Vec<char>, from: usize, to: usize) -> (r: Vec<char>)
    requires
        from <= to <= s@.len(),
    ensures
        r@ == s@.subrange(from as int, to as int),
{
    let mut r: Vec<char> = Vec::new();
    let mut i: usize = from;
    while i < to
        invariant
            from <= i <= to <= s@.len(),
            r@ == s@.subrange(from as int, i as int),
        decreases to - i,
    {
        r.push(s[i]);
        proof {
            assert(r@ =~= s@.subrange(from as int, i + 1));
        }
        i += 1;
    }
    r
}

/// The pieces of `s` between occurrences of `sep`; always at least one
/// (possibly empty) piece.
pub open spec fn spec_split(s: Seq<char>, sep: char) -> Seq<Seq<char>>
    decreases s.len(),
{
    let f = spec_find(s, sep);
    if 0 <= f < s.len() {
        seq![s.take(f)] + spec_split(s.skip(f + 1), sep)
    } else {
        seq![s]
    }
}

/// A separator-free string finds no separator and splits into itself.
pub proof fn lemma_split_whole(a: Seq<char>, sep: char)
    requires
        forall|i: int| 0 <= i < a.len() ==> a[i] != sep,
    ensures
        spec_find(a, sep) == -1,
        spec_split(a, sep) == seq![a],
    decreases a.len(),
{
    if a.len() == 0 {
    } else {
        assert(a[0] != sep);
        lemma_split_whole(a.drop_first(), sep);
    }
}

/// With a separator-free head before an explicit separator, the first piece
/// of the split is exactly that head.
pub proof fn lemma_split_sep_head(a: Seq<char>, t: Seq<char>, sep: char)
    requires
        forall|i: int| 0 <= i < a.len() ==> a[i] != sep,
    ensures
        spec_split(a + seq![sep] + t, sep) == seq![a] + spec_split(t, sep),
    decreases a.len(),
{
    let s = a + seq![sep] + t;
    if a.len() == 0 {
        assert(s[0] == sep);
        assert(spec_find(s, sep) == 0);
        assert(s.take(0) =~= a);
        assert(s.skip(1) =~= t);
    } else {
        assert(s[0] == a[0]);
        assert(s[0] != sep);
        assert(s.drop_first() =~= a.drop_first() + seq![sep] + t);
        lemma_find_shift(a, t, sep);
        let f = spec_find(s, sep);
        assert(f == a.len());
        assert(s.take(f) =~= a);
        assert(s.skip(f + 1) =~= t);
    }
}

/// The first separator after a separator-free head sits right behind it.
pub proof fn lemma_find_shift(a: Seq<char>, t: Seq<char>, sep: char)
    requires
        forall|i: int| 0 <= i < a.len() ==> a[i] != sep,
    ensures
        spec_find(a + seq![sep] + t, sep) == a.len(),
    decreases a.len(),
{
    let s = a + seq![sep] + t;
    if a.len() == 0 {
        assert(s[0] == sep);
    } else {
        assert(s[0] == a[0]);
        assert(s[0] != sep);
        assert(s.drop_first() =~= a.drop_first() + seq![sep] + t);
        lemma_find_shift(a.drop_first(), t, sep);
    }
}

/// The views of a sequence of character vectors.
pub open spec fn char_views(parts: Seq<Vec<char>>) -> Seq<Seq<char>> {
    parts.map_values(|p: Vec<char>| p@)
}

/// Split a character vector at every occurrence of `sep`.
pub fn split_chars(s: &Vec<char>, sep: char) -> (r: Vec<Vec<char>>)
    ensures
        char_views(r@) == spec_split(s@, sep),
{
    let mut acc: Vec<Vec<char>> = Vec::new();
    let mut cur: Vec<char> = Vec::new();
    let mut i: usize = 0;
    proof {
        assert(char_views(acc@) =~= Seq::<Seq<char>>::empty());
        assert(cur@ + s@.skip(0) =~= s@);
        assert(char_views(acc@) + spec_split(cur@ + s@.skip(0), sep) =~= spec_split(s@, sep));
    }
    while i < s.len()
        invariant
            i <= s@.len(),
            forall|k: int| 0 <= k < cur@.len() ==> cur@[k] != sep,
            spec_split(s@, sep) == char_views(acc@) + spec_split(cur@ + s@.skip(i as int), sep),
        decreases s@.len() - i,
    {
        let c = s[i];
        if c == sep {
            proof {
                assert(cur@ + s@.skip(i as int) =~= cur@ + seq![sep] + s@.skip(i + 1));
                lemma_split_sep_head(cur@, s@.skip(i + 1), sep);
                assert(char_views(acc@.push(cur)) =~= char_views(acc@).push(cur@));
                assert(char_views(acc@) + seq![cur@] + spec_split(s@.skip(i + 1), sep)
                    =~= char_views(acc@).push(cur@) + spec_split(s@.skip(i + 1), sep));
            }
            acc.push(cur);
            cur = Vec::new();
            proof {
                assert(cur@ + s@.skip(i + 1) =~= s@.skip(i + 1));
            }
        } else {
            proof {
                assert(cur@ + s@.skip(i as int) =~= cur@.push(c) + s@.skip(i + 1));
            }
            cur.push(c);
        }
        i += 1;
    }
    proof {
        assert(cur@ + s@.skip(s@.len() as int) =~= cur@);
        lemma_split_whole(cur@, sep);
        assert(char_views(acc@.push(cur)) =~= char_views(acc@).push(cur@));
        assert(char_views(acc@) + seq![cur@] =~= char_views(acc@).push(cur@));
    }
    acc.push(cur);
    acc
}

} // verus!
