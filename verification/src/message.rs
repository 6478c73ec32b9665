//! The wire protocol: text frames with a case-insensitive keyword and
//! space-separated fields.
//!
//! Incoming frames are folded to lowercase and then parsed by fully
//! verified code: `board ...` and `end ...` frames pass through, and
//! `selection <row> <col>` frames carry a move. Outgoing `Board <grid>` and
//! `End <mark>` frames are built by the verified encoders below.
use vstd::prelude::*;

use crate::board::grid_view;

use vstd::string::StrSliceExecFns;
use vstd::string::StringExecFns;

verus! {

broadcast use vstd::string::group_string_axioms;

/// One wire-protocol message.
#[derive(Debug)]
pub enum GameMessage {
    /// Full board state, in the form `board [[...], ..., [...]]`.
    Board { state_str: String },
    /// End of game, in the form `end x`, where `x` is the winning player's
    /// mark, or 0 for a draw.
    End { ending_str: String },
    /// A player's chosen cell, incoming as `selection <row> <col>`.
    Selection { row: u8, col: u8 },
}

/// The mathematical value of a message: its text fields as character
/// sequences.
pub enum SpecMessage {
    Board { state: Seq<char> },
    End { ending: Seq<char> },
    Selection { row: u8, col: u8 },
}

impl View for GameMessage {
    type V = SpecMessage;

    open spec fn view(&self) -> SpecMessage {
        match self {
            GameMessage::Board { state_str } => SpecMessage::Board { state: state_str@ },
            GameMessage::End { ending_str } => SpecMessage::End { ending: ending_str@ },
            GameMessage::Selection { row, col } => SpecMessage::Selection { row: *row, col: *col },
        }
    }
}

/// What reading a frame yields: a message, or one of the two parse
/// failures the reader distinguishes.
pub enum SpecParsed {
    Msg(SpecMessage),
    BadSelection,
    Unrecognized,
}

/// `s` begins with the characters of `p`.
pub open spec fn starts_with(s: Seq<char>, p: Seq<char>) -> bool {
    s.len() >= p.len() && s.subrange(0, p.len() as int) == p
}

/// The parts of `s` split at every single space, as the splitter of the
/// standard library yields them: empty parts between adjacent spaces are
/// kept, and the whole of a spaceless text is one part.
pub open spec fn split_spaces(s: Seq<char>) -> Seq<Seq<char>>
    decreases s.len(),
{
    if s.len() == 0 {
        seq![s]
    } else if s[0] == ' ' {
        seq![Seq::<char>::empty()] + split_spaces(s.subrange(1, s.len() as int))
    } else {
        let rest = split_spaces(s.subrange(1, s.len() as int));
        seq![seq![s[0]] + rest[0]] + rest.skip(1)
    }
}

/// Splitting yields at least one part.
pub proof fn lemma_split_nonempty(s: Seq<char>)
    ensures
        split_spaces(s).len() >= 1,
    decreases s.len(),
{
    if s.len() != 0 {
        lemma_split_nonempty(s.subrange(1, s.len() as int));
    }
}

/// `c` is a decimal digit.
pub open spec fn is_digit(c: char) -> bool {
    48 <= c as u32 <= 57
}

/// The numeric value of a digit character.
pub open spec fn digit_val(c: char) -> int {
    c as u32 - 48
}

/// `s` is one or more characters, all decimal digits.
pub open spec fn all_digits(s: Seq<char>) -> bool {
    s.len() >= 1 && (forall|t: int| 0 <= t < s.len() ==> is_digit(#[trigger] s[t]))
}

/// The digits of a numeral, past an optional leading plus sign.
pub open spec fn digits_body(s: Seq<char>) -> Seq<char> {
    if s.len() >= 1 && s[0] == '+' {
        s.skip(1)
    } else {
        s
    }
}

/// The value of a digit string, most significant first.
pub open spec fn digits_val(s: Seq<char>) -> int
    decreases s.len(),
{
    if s.len() == 0 {
        0
    } else {
        digits_val(s.drop_last()) * 10 + digit_val(s.last())
    }
}

/// `s` is text the standard integer parser accepts for a `u8`: an optional
/// leading '+', then one or more decimal digits, with a value of at most
/// 255.
pub open spec fn parses_as_u8(s: Seq<char>) -> bool {
    all_digits(digits_body(s)) && digits_val(digits_body(s)) <= 255
}

/// The `u8` a numeral denotes.
pub open spec fn u8_of_digits(s: Seq<char>) -> u8 {
    digits_val(digits_body(s)) as u8
}

/// What reading yields on the lowered text `s`: `board...` and `end...`
/// frames pass through whole; otherwise exactly three space-separated
/// parts led by `selection` name a cell, failing as a bad selection when a
/// coordinate does not parse; everything else is unrecognized.
pub open spec fn spec_read(s: Seq<char>) -> SpecParsed {
    if starts_with(s, "board"@) {
        SpecParsed::Msg(SpecMessage::Board { state: s })
    } else if starts_with(s, "end"@) {
        SpecParsed::Msg(SpecMessage::End { ending: s })
    } else {
        let parts = split_spaces(s);
        if parts[0] == "selection"@ && parts.len() == 3 {
            if parses_as_u8(parts[1]) && parses_as_u8(parts[2]) {
                SpecParsed::Msg(
                    SpecMessage::Selection {
                        row: u8_of_digits(parts[1]),
                        col: u8_of_digits(parts[2]),
                    },
                )
            } else {
                SpecParsed::BadSelection
            }
        } else {
            SpecParsed::Unrecognized
        }
    }
}

/// The reader's result agrees with the parse outcome `p`.
pub open spec fn read_matches(r: Result<GameMessage, &'static str>, p: SpecParsed) -> bool {
    match p {
        SpecParsed::Msg(m) => r matches Ok(msg) && msg@ == m,
        SpecParsed::BadSelection => r matches Err(e) && e@ == "could not parse selection message"@,
        SpecParsed::Unrecognized => r matches Err(e) && e@ == "could not parse message"@,
    }
}

/// The text folded to lowercase: the result of the standard library's
/// Unicode lowercasing, a function of the characters alone.
pub uninterp spec fn lower_of(s: Seq<char>) -> Seq<char>;

/// Relies on str::to_lowercase: the Unicode lowercase of the text, which
/// depends on the characters alone.
#[verifier::external_body]
fn to_lowercase(s: &str) -> (r: String)
    ensures
        r@ == lower_of(s@),
{
    s.to_lowercase()
}

/// The characters of a string slice, in order.
#[verifier::loop_isolation(false)]
fn str_chars(s: &str) -> (r: Vec<char>)
    ensures
        r@ == s@,
{
    let n = s.unicode_len();
    let mut out: Vec<char> = Vec::new();
    let mut i: usize = 0;
    while i < n
        invariant
            i <= n,
            out@ == s@.subrange(0, i as int),
        decreases n - i,
    {
        out.push(s.get_char(i));
        proof {
            assert(out@ =~= s@.subrange(0, i + 1));
        }
        i = i + 1;
    }
    proof {
        assert(out@ =~= s@);
    }
    out
}

/// Whether the character sequence begins with the given word.
#[verifier::loop_isolation(false)]
fn begins_with(chars: &Vec<char>, prefix: &str) -> (r: bool)
    ensures
        r == starts_with(chars@, prefix@),
{
    let p = str_chars(prefix);
    if chars.len() < p.len() {
        return false;
    }
    let mut i: usize = 0;
    while i < p.len()
        invariant
            i <= p.len(),
            forall|t: int| 0 <= t < i ==> chars@[t] == p@[t],
        decreases p.len() - i,
    {
        if chars[i] != p[i] {
            proof {
                assert(chars@.subrange(0, p@.len() as int)[i as int] != p@[i as int]);
            }
            return false;
        }
        i = i + 1;
    }
    proof {
        assert(chars@.subrange(0, p@.len() as int) =~= p@);
    }
    true
}

/// Whether the character sequence is exactly the given word.
#[verifier::loop_isolation(false)]
fn chars_eq_str(part: &Vec<char>, word: &str) -> (r: bool)
    ensures
        r == (part@ == word@),
{
    let w = str_chars(word);
    if part.len() != w.len() {
        return false;
    }
    let mut i: usize = 0;
    while i < w.len()
        invariant
            i <= w.len(),
            part@.len() == w@.len(),
            forall|t: int| 0 <= t < i ==> part@[t] == w@[t],
        decreases w.len() - i,
    {
        if part[i] != w[i] {
            return false;
        }
        i = i + 1;
    }
    proof {
        assert(part@ =~= w@);
    }
    true
}

/// The parts of a split with the first one extended at the front by `c`.
pub open spec fn prepend_first(c: Seq<char>, parts: Seq<Seq<char>>) -> Seq<Seq<char>> {
    seq![c + parts[0]] + parts.skip(1)
}

/// The mathematical value of a list of parts.
pub open spec fn parts_view(p: &Vec<Vec<char>>) -> Seq<Seq<char>> {
    Seq::new(p@.len(), |i: int| p@[i]@)
}

/// Splits the characters at every single space, as `split_spaces` says.
#[verifier::loop_isolation(false)]
fn split_at_spaces(chars: &Vec<char>) -> (parts: Vec<Vec<char>>)
    ensures
        parts_view(&parts) == split_spaces(chars@),
{
    let mut parts: Vec<Vec<char>> = Vec::new();
    let mut cur: Vec<char> = Vec::new();
    let mut i: usize = 0;
    proof {
        lemma_split_nonempty(chars@);
        assert(chars@.subrange(0, chars@.len() as int) =~= chars@);
        assert(parts_view(&parts) + prepend_first(
            cur@,
            split_spaces(chars@.subrange(0, chars@.len() as int)),
        ) =~~= split_spaces(chars@));
    }
    while i < chars.len()
        invariant
            i <= chars.len(),
            split_spaces(chars@) == parts_view(&parts) + prepend_first(
                cur@,
                split_spaces(chars@.subrange(i as int, chars@.len() as int)),
            ),
        decreases chars.len() - i,
    {
        let ghost rem = chars@.subrange(i as int, chars@.len() as int);
        let ghost rem1 = chars@.subrange(i + 1, chars@.len() as int);
        let ghost old_parts = parts_view(&parts);
        let ghost old_cur = cur@;
        proof {
            assert(rem[0] == chars@[i as int]);
            assert(rem.subrange(1, rem.len() as int) =~= rem1);
            lemma_split_nonempty(rem1);
        }
        let c = chars[i];
        if c == ' ' {
            parts.push(cur);
            cur = Vec::new();
            proof {
                let s1 = split_spaces(rem1);
                assert(split_spaces(rem) == seq![Seq::<char>::empty()] + s1);
                assert(prepend_first(old_cur, split_spaces(rem)) =~~= seq![old_cur] + s1);
                assert(parts_view(&parts) =~~= old_parts + seq![old_cur]);
                assert(prepend_first(cur@, s1) =~~= s1);
                assert(parts_view(&parts) + prepend_first(cur@, s1) =~~= old_parts + prepend_first(
                    old_cur,
                    split_spaces(rem),
                ));
            }
        } else {
            cur.push(c);
            proof {
                let s1 = split_spaces(rem1);
                assert(split_spaces(rem) == seq![seq![rem[0]] + s1[0]] + s1.skip(1));
                assert(prepend_first(old_cur, split_spaces(rem)) =~~= seq![(old_cur + seq![rem[0]])
                    + s1[0]] + s1.skip(1));
                assert(cur@ =~= old_cur + seq![rem[0]]);
                assert(prepend_first(old_cur, split_spaces(rem)) =~~= prepend_first(cur@, s1));
            }
        }
        i = i + 1;
    }
    proof {
        let rem = chars@.subrange(i as int, chars@.len() as int);
        assert(rem.len() == 0);
        assert(split_spaces(rem) == seq![rem]);
        assert(prepend_first(cur@, split_spaces(rem)) =~~= seq![cur@]);
    }
    let ghost old_parts = parts_view(&parts);
    let ghost last_cur = cur@;
    parts.push(cur);
    proof {
        assert(parts_view(&parts) =~~= old_parts + seq![last_cur]);
        assert(parts_view(&parts) =~~= split_spaces(chars@));
    }
    parts
}

/// Digit strings value no less than any of their prefixes.
proof fn lemma_digits_val_nonneg(s: Seq<char>)
    requires
        forall|t: int| 0 <= t < s.len() ==> is_digit(#[trigger] s[t]),
    ensures
        digits_val(s) >= 0,
    decreases s.len(),
{
    if s.len() > 0 {
        assert forall|t: int| 0 <= t < s.drop_last().len() implies is_digit(
            #[trigger] s.drop_last()[t],
        ) by {
            assert(s.drop_last()[t] == s[t]);
        }
        lemma_digits_val_nonneg(s.drop_last());
    }
}

/// The value of a digit string bounds the value of each of its prefixes.
proof fn lemma_digits_val_mono(s: Seq<char>, k: int)
    requires
        0 <= k <= s.len(),
        forall|t: int| 0 <= t < s.len() ==> is_digit(#[trigger] s[t]),
    ensures
        digits_val(s.subrange(0, k)) <= digits_val(s),
    decreases s.len() - k,
{
    if k < s.len() {
        assert forall|t: int| 0 <= t < s.subrange(0, k).len() implies is_digit(
            #[trigger] s.subrange(0, k)[t],
        ) by {
            assert(s.subrange(0, k)[t] == s[t]);
        }
        lemma_digits_val_nonneg(s.subrange(0, k));
        assert(s.subrange(0, k + 1).drop_last() =~= s.subrange(0, k));
        assert(s.subrange(0, k + 1).last() == s[k]);
        lemma_digits_val_mono(s, k + 1);
    } else {
        assert(s.subrange(0, k) =~= s);
    }
}

/// Parses a coordinate numeral as the standard `u8` parser does.
#[verifier::loop_isolation(false)]
fn parse_u8_digits(chars: &Vec<char>) -> (r: Option<u8>)
    ensures
        r is Some <==> parses_as_u8(chars@),
        r matches Some(v) ==> v == u8_of_digits(chars@),
{
    let n = chars.len();
    let mut start: usize = 0;
    if n > 0 && chars[0] == '+' {
        start = 1;
    }
    let ghost body = digits_body(chars@);
    proof {
        assert(body =~= chars@.subrange(start as int, n as int));
    }
    if start >= n {
        return None;
    }
    let mut acc: u32 = 0;
    let mut j: usize = start;
    while j < n
        invariant
            start <= j <= n,
            acc <= 255,
            acc as int == digits_val(body.subrange(0, j - start)),
            forall|t: int| 0 <= t < j - start ==> is_digit(#[trigger] body[t]),
        decreases n - j,
    {
        let c = chars[j];
        let u = c as u32;
        if u < 48 || u > 57 {
            proof {
                assert(body[j - start] == chars@[j as int]);
                assert(!all_digits(body));
            }
            return None;
        }
        let d = u - 48;
        let next = acc * 10 + d;
        proof {
            assert(body.subrange(0, j - start + 1).drop_last() =~= body.subrange(0, j - start));
            assert(body.subrange(0, j - start + 1).last() == chars@[j as int]);
        }
        if next > 255 {
            proof {
                if all_digits(body) {
                    lemma_digits_val_mono(body, j - start + 1);
                }
            }
            return None;
        }
        acc = next;
        j = j + 1;
    }
    proof {
        assert(body.subrange(0, n - start) =~= body);
        assert(all_digits(body));
    }
    Some(acc as u8)
}

impl GameMessage {
    /// Reads one frame: folds the text to lowercase, then parses it.
    pub fn read(text: String) -> (r: Result<GameMessage, &'static str>)
        ensures
            read_matches(r, spec_read(lower_of(text@))),
    {
        let lowered = to_lowercase(text.as_str());
        Self::parse_lowered(lowered)
    }

    /// Parses one already-lowercased frame, exactly as `spec_read` says.
    pub fn parse_lowered(lowered: String) -> (r: Result<GameMessage, &'static str>)
        ensures
            read_matches(r, spec_read(lowered@)),
    {
        let chars = str_chars(lowered.as_str());
        if begins_with(&chars, "board") {
            return Ok(GameMessage::Board { state_str: lowered });
        }
        if begins_with(&chars, "end") {
            return Ok(GameMessage::End { ending_str: lowered });
        }

        let parts = split_at_spaces(&chars);
        proof {
            lemma_split_nonempty(chars@);
        }
        if parts.len() == 0 {
            return Err("empty message!");
        }

        if chars_eq_str(&parts[0], "selection") && parts.len() == 3 {
            let row = parse_u8_digits(&parts[1]);
            let col = parse_u8_digits(&parts[2]);
            match (row, col) {
                (Some(row), Some(col)) => Ok(GameMessage::Selection { row, col }),
                _ => Err("could not parse selection message"),
            }
        } else {
            Err("could not parse message")
        }
    }
}

/// The character of one digit.
pub open spec fn digit_char(d: u8) -> char {
    if d == 0 {
        '0'
    } else if d == 1 {
        '1'
    } else if d == 2 {
        '2'
    } else if d == 3 {
        '3'
    } else if d == 4 {
        '4'
    } else if d == 5 {
        '5'
    } else if d == 6 {
        '6'
    } else if d == 7 {
        '7'
    } else if d == 8 {
        '8'
    } else {
        '9'
    }
}

/// The decimal numeral of a mark or cell value, as the standard debug
/// formatter prints an unsigned byte.
pub open spec fn dec_digits(n: u8) -> Seq<char> {
    if n < 10 {
        seq![digit_char(n)]
    } else if n < 100 {
        seq![digit_char(n / 10), digit_char(n % 10)]
    } else {
        seq![digit_char(n / 100), digit_char((n / 10) % 10), digit_char(n % 10)]
    }
}

/// The cells of a row from index `j` on, separated by comma and space.
pub open spec fn row_inner_from(r: Seq<u8>, j: int) -> Seq<char>
    decreases r.len() - j,
{
    if j < 0 || j >= r.len() {
        Seq::empty()
    } else if j == r.len() - 1 {
        dec_digits(r[j])
    } else {
        dec_digits(r[j]) + seq![',', ' '] + row_inner_from(r, j + 1)
    }
}

/// One row printed as a bracketed list of cells.
pub open spec fn row_chars(r: Seq<u8>) -> Seq<char> {
    seq!['['] + row_inner_from(r, 0) + seq![']']
}

/// The rows of a grid from index `i` on, separated by comma and space.
pub open spec fn grid_inner_from(g: Seq<Seq<u8>>, i: int) -> Seq<char>
    decreases g.len() - i,
{
    if i < 0 || i >= g.len() {
        Seq::empty()
    } else if i == g.len() - 1 {
        row_chars(g[i])
    } else {
        row_chars(g[i]) + seq![',', ' '] + grid_inner_from(g, i + 1)
    }
}

/// A grid printed as a bracketed list of rows.
pub open spec fn grid_chars(g: Seq<Seq<u8>>) -> Seq<char> {
    seq!['['] + grid_inner_from(g, 0) + seq![']']
}

/// The outgoing board frame: `Board ` followed by the printed grid.
pub open spec fn board_msg_chars(g: Seq<Seq<u8>>) -> Seq<char> {
    seq!['B', 'o', 'a', 'r', 'd', ' '] + grid_chars(g)
}

/// The outgoing end frame: `End ` followed by the winning mark.
pub open spec fn end_msg_chars(mark: u8) -> Seq<char> {
    seq!['E', 'n', 'd', ' '] + dec_digits(mark)
}

/// Appends one digit character.
fn append_digit(s: &mut String, d: u8)
    requires
        d < 10,
    ensures
        final(s)@ == old(s)@ + seq![digit_char(d)],
{
    proof {
        reveal_strlit("0");
        reveal_strlit("1");
        reveal_strlit("2");
        reveal_strlit("3");
        reveal_strlit("4");
        reveal_strlit("5");
        reveal_strlit("6");
        reveal_strlit("7");
        reveal_strlit("8");
        reveal_strlit("9");
    }
    match d {
        0 => s.append("0"),
        1 => s.append("1"),
        2 => s.append("2"),
        3 => s.append("3"),
        4 => s.append("4"),
        5 => s.append("5"),
        6 => s.append("6"),
        7 => s.append("7"),
        8 => s.append("8"),
        _ => s.append("9"),
    }
    proof {
        assert(s@ =~= old(s)@ + seq![digit_char(d)]);
    }
}

/// Appends the decimal numeral of `n`.
fn append_u8_dec(s: &mut String, n: u8)
    ensures
        final(s)@ == old(s)@ + dec_digits(n),
{
    if n >= 100 {
        append_digit(s, n / 100);
        append_digit(s, (n / 10) % 10);
        append_digit(s, n % 10);
    } else if n >= 10 {
        append_digit(s, n / 10);
        append_digit(s, n % 10);
    } else {
        append_digit(s, n);
    }
    proof {
        assert(s@ =~= old(s)@ + dec_digits(n));
    }
}

/// Builds the outgoing `End <mark>` frame.
pub fn encode_end(mark: u8) -> (r: String)
    ensures
        r@ == end_msg_chars(mark),
{
    let mut s = String::new();
    s.append("End ");
    append_u8_dec(&mut s, mark);
    proof {
        reveal_strlit("End ");
        assert(s@ =~= end_msg_chars(mark));
    }
    s
}

/// Builds the outgoing `Board <grid>` frame, printing the full grid as the
/// standard debug formatter prints nested vectors.
#[verifier::loop_isolation(false)]
pub fn encode_board(grid: &Vec<Vec<u8>>) -> (r: String)
    ensures
        r@ == board_msg_chars(grid_view(grid)),
{
    let ghost g = grid_view(grid);
    let ghost head = seq!['B', 'o', 'a', 'r', 'd', ' ', '['];
    let mut s = String::new();
    s.append("Board ");
    s.append("[");
    proof {
        reveal_strlit("Board ");
        reveal_strlit("[");
        assert(s@ =~= head);
    }
    let ghost mut done: Seq<char> = Seq::empty();
    let mut i: usize = 0;
    while i < grid.len()
        invariant
            i <= grid.len(),
            s@ == head + done,
            done + grid_inner_from(g, i as int) == grid_inner_from(g, 0),
        decreases grid.len() - i,
    {
        let ghost done_rows = done;
        s.append("[");
        proof {
            reveal_strlit("[");
            assert(g[i as int] == grid@[i as int]@);
        }
        let ghost mut rdone: Seq<char> = Seq::empty();
        let row_len = grid[i].len();
        let mut j: usize = 0;
        while j < row_len
            invariant
                j <= row_len,
                row_len == g[i as int].len(),
                i < grid.len(),
                s@ == head + done_rows + seq!['['] + rdone,
                rdone + row_inner_from(g[i as int], j as int) == row_inner_from(g[i as int], 0),
            decreases row_len - j,
        {
            let cell = grid[i][j];
            append_u8_dec(&mut s, cell);
            proof {
                rdone = rdone + dec_digits(cell);
            }
            if j + 1 < row_len {
                s.append(", ");
                proof {
                    reveal_strlit(", ");
                    rdone = rdone + seq![',', ' '];
                }
            }
            proof {
                assert(cell == g[i as int][j as int]);
                assert(s@ =~= head + done_rows + seq!['['] + rdone);
                if j + 1 < row_len {
                    assert(row_inner_from(g[i as int], j as int) == dec_digits(cell) + seq![',', ' ']
                        + row_inner_from(g[i as int], j + 1));
                    assert(rdone + row_inner_from(g[i as int], j + 1) =~= row_inner_from(
                        g[i as int],
                        0,
                    ));
                } else {
                    assert(row_inner_from(g[i as int], j as int) == dec_digits(cell));
                    assert(rdone + row_inner_from(g[i as int], j + 1) =~= row_inner_from(
                        g[i as int],
                        0,
                    ));
                }
            }
            j = j + 1;
        }
        s.append("]");
        proof {
            reveal_strlit("]");
            assert(rdone =~= row_inner_from(g[i as int], 0));
            done = done + seq!['['] + rdone + seq![']'];
            assert(done_rows + seq!['['] + rdone + seq![']'] =~= done_rows + row_chars(g[i as int]));
        }
        if i + 1 < grid.len() {
            s.append(", ");
            proof {
                reveal_strlit(", ");
                done = done + seq![',', ' '];
            }
        }
        proof {
            assert(s@ =~= head + done);
            if i + 1 < grid.len() {
                assert(grid_inner_from(g, i as int) == row_chars(g[i as int]) + seq![',', ' ']
                    + grid_inner_from(g, i + 1));
                assert(done + grid_inner_from(g, i + 1) =~= grid_inner_from(g, 0));
            } else {
                assert(grid_inner_from(g, i as int) == row_chars(g[i as int]));
                assert(done + grid_inner_from(g, i + 1) =~= grid_inner_from(g, 0));
            }
        }
        i = i + 1;
    }
    s.append("]");
    proof {
        reveal_strlit("]");
        assert(done =~= grid_inner_from(g, 0));
        assert(s@ =~= board_msg_chars(g));
    }
    s
}

} // verus!
