//! The durable encoding: a deterministic, self-delimiting textual encoding of
//! the full note sequence, written to the durable file as one overwrite, and
//! decoded back on startup. Numbers are decimal runs closed by `;`; text is
//! length-prefixed; a window placement is `N` (absent) or `W` followed by its
//! fields; the file is the note count followed by that many notes.

use vstd::prelude::*;
use vstd::string::*;
use vstd::arithmetic::div_mod::lemma_fundamental_div_mod;
use crate::memo::{Memo, MemoV, WindowState};
use crate::store::{memo_views, lemma_memo_views};

verus! {

// ------------------------------------------------------------------
// Digits
// ------------------------------------------------------------------

/// The decimal digit character for a value below ten.
pub open spec fn digit_char(d: int) -> char {
    if d == 0 {
        '0'
    } else if d == 1 {
        '1'
    } else if d == 2 {
        '2'
    } else if d == 3 {
        '3'
    } else if d == 4 {
        '4'
    } else if d == 5 {
        '5'
    } else if d == 6 {
        '6'
    } else if d == 7 {
        '7'
    } else if d == 8 {
        '8'
    } else {
        '9'
    }
}

/// The value of a decimal digit character, `-1` for any other character.
pub open spec fn digit_val(c: char) -> int {
    if c == '0' {
        0
    } else if c == '1' {
        1
    } else if c == '2' {
        2
    } else if c == '3' {
        3
    } else if c == '4' {
        4
    } else if c == '5' {
        5
    } else if c == '6' {
        6
    } else if c == '7' {
        7
    } else if c == '8' {
        8
    } else if c == '9' {
        9
    } else {
        -1
    }
}

pub open spec fn is_digit(c: char) -> bool {
    digit_val(c) >= 0
}

/// The decimal digits of `n`, most significant first.
pub open spec fn dec_digits(n: nat) -> Seq<char>
    decreases n,
{
    if n < 10 {
        seq![digit_char(n as int)]
    } else {
        dec_digits(n / 10) + seq![digit_char((n % 10) as int)]
    }
}

// ------------------------------------------------------------------
// Encoding (specification)
// ------------------------------------------------------------------

/// A number token: decimal digits closed by `;`.
pub open spec fn enc_nat(n: nat) -> Seq<char> {
    dec_digits(n) + seq![';']
}

/// A text token: its length as a number token, then the text itself.
pub open spec fn enc_str(s: Seq<char>) -> Seq<char> {
    enc_nat(s.len()) + s
}

pub open spec fn enc_bool(b: bool) -> Seq<char> {
    if b {
        seq!['T']
    } else {
        seq!['F']
    }
}

/// A signed coordinate: an explicit sign, then the magnitude.
pub open spec fn enc_coord(v: int) -> Seq<char> {
    if v >= 0 {
        seq!['+'] + enc_nat(v as nat)
    } else {
        seq!['-'] + enc_nat((-v) as nat)
    }
}

pub open spec fn enc_win(w: Option<WindowState>) -> Seq<char> {
    match w {
        None => seq!['N'],
        Some(ws) => seq!['W'] + enc_bool(ws.is_open) + enc_coord(ws.x as int) + enc_coord(
            ws.y as int,
        ) + enc_coord(ws.width as int) + enc_coord(ws.height as int) + enc_bool(ws.always_on_top),
    }
}

pub open spec fn enc_memo(m: MemoV) -> Seq<char> {
    enc_str(m.id) + enc_str(m.title) + enc_str(m.content) + enc_str(m.color) + enc_nat(
        m.updated_at as nat,
    ) + enc_win(m.window)
}

/// The notes of `ms` from position `i` on, encoded one after the other.
pub open spec fn enc_list(ms: Seq<MemoV>, i: int) -> Seq<char>
    decreases ms.len() - i,
{
    if i < 0 || i >= ms.len() {
        Seq::<char>::empty()
    } else {
        enc_memo(ms[i]) + enc_list(ms, i + 1)
    }
}

/// The full durable text: the note count, then each note in order.
pub open spec fn enc_memos(ms: Seq<MemoV>) -> Seq<char> {
    enc_nat(ms.len()) + enc_list(ms, 0)
}

// ------------------------------------------------------------------
// Encoding (executable)
// ------------------------------------------------------------------

fn digit_str(d: u64) -> (r: &'static str)
    requires
        d < 10,
    ensures
        r@ == seq![digit_char(d as int)],
{
    proof {
        reveal_strlit("0");
        reveal_strlit("1");
        reveal_strlit("2");
        reveal_strlit("3");
        reveal_strlit("4");
        reveal_strlit("5");
        reveal_strlit("6");
        reveal_strlit("7");
        reveal_strlit("8");
        reveal_strlit("9");
    }
    if d == 0 {
        proof {
            assert("0"@ =~= seq![digit_char(0int)]);
        }
        "0"
    } else if d == 1 {
        proof {
            assert("1"@ =~= seq![digit_char(1int)]);
        }
        "1"
    } else if d == 2 {
        proof {
            assert("2"@ =~= seq![digit_char(2int)]);
        }
        "2"
    } else if d == 3 {
        proof {
            assert("3"@ =~= seq![digit_char(3int)]);
        }
        "3"
    } else if d == 4 {
        proof {
            assert("4"@ =~= seq![digit_char(4int)]);
        }
        "4"
    } else if d == 5 {
        proof {
            assert("5"@ =~= seq![digit_char(5int)]);
        }
        "5"
    } else if d == 6 {
        proof {
            assert("6"@ =~= seq![digit_char(6int)]);
        }
        "6"
    } else if d == 7 {
        proof {
            assert("7"@ =~= seq![digit_char(7int)]);
        }
        "7"
    } else if d == 8 {
        proof {
            assert("8"@ =~= seq![digit_char(8int)]);
        }
        "8"
    } else {
        proof {
            assert("9"@ =~= seq![digit_char(9int)]);
        }
        "9"
    }
}

/// The decimal digits of `n`, as a fresh string.
fn encode_u64(n: u64) -> (s: String)
    ensures
        s@ == dec_digits(n as nat),
    decreases n,
{
    if n < 10 {
        String::from_str(digit_str(n))
    } else {
        let mut s = encode_u64(n / 10);
        s.append(digit_str(n % 10));
        proof {
            assert(s@ =~= dec_digits(n as nat));
        }
        s
    }
}

/// Append a number token.
fn append_u64_token(out: &mut String, n: u64)
    ensures
        final(out)@ == old(out)@ + enc_nat(n as nat),
{
    let d = encode_u64(n);
    out.append(d.as_str());
    out.append(";");
    proof {
        reveal_strlit(";");
        assert(";"@ =~= seq![';']);
        assert(out@ =~= old(out)@ + enc_nat(n as nat));
    }
}

/// Append a text token.
fn append_str_token(out: &mut String, s: &String)
    ensures
        final(out)@ == old(out)@ + enc_str(s@),
{
    let n = s.as_str().unicode_len();
    append_u64_token(out, n as u64);
    out.append(s.as_str());
    proof {
        assert(out@ =~= old(out)@ + enc_str(s@));
    }
}

fn append_bool(out: &mut String, b: bool)
    ensures
        final(out)@ == old(out)@ + enc_bool(b),
{
    if b {
        out.append("T");
        proof {
            reveal_strlit("T");
            assert(out@ =~= old(out)@ + enc_bool(b));
        }
    } else {
        out.append("F");
        proof {
            reveal_strlit("F");
            assert(out@ =~= old(out)@ + enc_bool(b));
        }
    }
}

fn append_coord(out: &mut String, v: i64)
    ensures
        final(out)@ == old(out)@ + enc_coord(v as int),
{
    if v >= 0 {
        out.append("+");
        append_u64_token(out, v as u64);
        proof {
            reveal_strlit("+");
            assert("+"@ =~= seq!['+']);
            assert(out@ =~= old(out)@ + enc_coord(v as int));
        }
    } else {
        out.append("-");
        let mag: u64 = ((-(v + 1)) as u64) + 1;
        append_u64_token(out, mag);
        proof {
            reveal_strlit("-");
            assert("-"@ =~= seq!['-']);
            assert(mag as nat == (-(v as int)) as nat);
            assert(out@ =~= old(out)@ + enc_coord(v as int));
        }
    }
}

fn append_win(out: &mut String, w: &Option<WindowState>)
    ensures
        final(out)@ == old(out)@ + enc_win(*w),
{
    match w {
        None => {
            out.append("N");
            proof {
                reveal_strlit("N");
                assert(out@ =~= old(out)@ + enc_win(*w));
            }
        },
        Some(ws) => {
            out.append("W");
            proof {
                reveal_strlit("W");
                assert("W"@ =~= seq!['W']);
            }
            append_bool(out, ws.is_open);
            append_coord(out, ws.x);
            append_coord(out, ws.y);
            append_coord(out, ws.width);
            append_coord(out, ws.height);
            append_bool(out, ws.always_on_top);
            proof {
                assert(out@ =~= old(out)@ + enc_win(*w));
            }
        },
    }
}

fn append_memo(out: &mut String, m: &Memo)
    ensures
        final(out)@ == old(out)@ + enc_memo(m@),
{
    append_str_token(out, &m.id);
    append_str_token(out, &m.title);
    append_str_token(out, &m.content);
    append_str_token(out, &m.color);
    append_u64_token(out, m.updated_at);
    append_win(out, &m.window);
    proof {
        assert(out@ =~= old(out)@ + enc_memo(m@));
    }
}

/// Serialize a point-in-time snapshot of the full note sequence: the compute
/// half of the durable writer. Deterministic in the snapshot, by construction.
pub fn encode_memos(memos: &Vec<Memo>) -> (r: String)
    ensures
        r@ == enc_memos(memo_views(memos@)),
{
    let ghost ms = memo_views(memos@);
    proof {
        lemma_memo_views(memos@);
    }
    let mut out = String::new();
    append_u64_token(&mut out, memos.len() as u64);
    let mut i: usize = 0;
    while i < memos.len()
        invariant
            i <= memos.len(),
            ms == memo_views(memos@),
            ms.len() == memos@.len(),
            forall|k: int| 0 <= k < memos@.len() ==> #[trigger] ms[k] == memos@[k]@,
            out@ + enc_list(ms, i as int) == enc_memos(ms),
        decreases memos.len() - i,
    {
        let ghost out0 = out@;
        append_memo(&mut out, &memos[i]);
        proof {
            assert(enc_list(ms, i as int) == enc_memo(ms[i as int]) + enc_list(ms, i + 1));
            assert(out@ + enc_list(ms, i + 1) =~= out0 + enc_list(ms, i as int));
        }
        i = i + 1;
    }
    proof {
        assert(enc_list(ms, memos@.len() as int) == Seq::<char>::empty());
        assert(out@ + Seq::<char>::empty() =~= out@);
    }
    out
}

// ------------------------------------------------------------------
// Decoding (specification)
// ------------------------------------------------------------------

/// Index of the first non-digit character at or after `i`, or the length.
pub open spec fn first_nondigit(s: Seq<char>, i: int) -> int
    decreases s.len() - i,
{
    if i < 0 || i >= s.len() {
        s.len() as int
    } else if !is_digit(s[i]) {
        i
    } else {
        first_nondigit(s, i + 1)
    }
}

/// Value of the decimal digit run `s[i..j)`.
pub open spec fn digits_val(s: Seq<char>, i: int, j: int) -> int
    decreases j - i,
{
    if i >= j {
        0
    } else {
        digits_val(s, i, j - 1) * 10 + digit_val(s[j - 1])
    }
}

/// Parse a number token at `i`: a non-empty digit run closed by `;`, whose
/// value fits a `u64`.
pub open spec fn sd_u64(s: Seq<char>, i: int) -> Option<(u64, int)> {
    let j = first_nondigit(s, i);
    if j == i {
        None
    } else if j >= s.len() {
        None
    } else if s[j] != ';' {
        None
    } else if digits_val(s, i, j) > u64::MAX {
        None
    } else {
        Some((digits_val(s, i, j) as u64, j + 1))
    }
}

/// Parse a text token at `i`: a length, then that many characters.
pub open spec fn sd_str(s: Seq<char>, i: int) -> Option<(Seq<char>, int)> {
    match sd_u64(s, i) {
        None => None,
        Some((n, j)) => if n > usize::MAX as u64 {
            None
        } else if j + n > s.len() {
            None
        } else {
            Some((s.subrange(j, j + n as int), j + n as int))
        },
    }
}

pub open spec fn sd_bool(s: Seq<char>, i: int) -> Option<(bool, int)> {
    if 0 <= i < s.len() && s[i] == 'T' {
        Some((true, i + 1))
    } else if 0 <= i < s.len() && s[i] == 'F' {
        Some((false, i + 1))
    } else {
        None
    }
}

pub open spec fn sd_coord(s: Seq<char>, i: int) -> Option<(i64, int)> {
    if !(0 <= i < s.len()) {
        None
    } else if s[i] == '+' {
        match sd_u64(s, i + 1) {
            None => None,
            Some((n, j)) => if n > i64::MAX as u64 {
                None
            } else {
                Some((n as i64, j))
            },
        }
    } else if s[i] == '-' {
        match sd_u64(s, i + 1) {
            None => None,
            Some((n, j)) => if n > (i64::MAX as u64) + 1 {
                None
            } else {
                Some(((-(n as int)) as i64, j))
            },
        }
    } else {
        None
    }
}

pub open spec fn sd_win(s: Seq<char>, i: int) -> Option<(Option<WindowState>, int)> {
    if !(0 <= i < s.len()) {
        None
    } else if s[i] == 'N' {
        Some((Option::<WindowState>::None, i + 1))
    } else if s[i] == 'W' {
        match sd_bool(s, i + 1) {
            None => None,
            Some((o, j1)) => match sd_coord(s, j1) {
                None => None,
                Some((x, j2)) => match sd_coord(s, j2) {
                    None => None,
                    Some((y, j3)) => match sd_coord(s, j3) {
                        None => None,
                        Some((w, j4)) => match sd_coord(s, j4) {
                            None => None,
                            Some((h, j5)) => match sd_bool(s, j5) {
                                None => None,
                                Some((t, j6)) => Some(
                                    (
                                        Some(
                                            WindowState {
                                                is_open: o,
                                                x: x,
                                                y: y,
                                                width: w,
                                                height: h,
                                                always_on_top: t,
                                            },
                                        ),
                                        j6,
                                    ),
                                ),
                            },
                        },
                    },
                },
            },
        }
    } else {
        None
    }
}

pub open spec fn sd_memo(s: Seq<char>, i: int) -> Option<(MemoV, int)> {
    match sd_str(s, i) {
        None => None,
        Some((id, j1)) => match sd_str(s, j1) {
            None => None,
            Some((title, j2)) => match sd_str(s, j2) {
                None => None,
                Some((content, j3)) => match sd_str(s, j3) {
                    None => None,
                    Some((color, j4)) => match sd_u64(s, j4) {
                        None => None,
                        Some((ts, j5)) => match sd_win(s, j5) {
                            None => None,
                            Some((w, j6)) => Some(
                                (
                                    MemoV {
                                        id: id,
                                        title: title,
                                        content: content,
                                        color: color,
                                        updated_at: ts,
                                        window: w,
                                    },
                                    j6,
                                ),
                            ),
                        },
                    },
                },
            },
        },
    }
}

/// Parse `n` notes one after the other, starting at `i`.
pub open spec fn sd_list(s: Seq<char>, i: int, n: nat) -> Option<(Seq<MemoV>, int)>
    decreases n,
{
    if n == 0 {
        Some((Seq::<MemoV>::empty(), i))
    } else {
        match sd_memo(s, i) {
            None => None,
            Some((m, j)) => match sd_list(s, j, (n - 1) as nat) {
                None => None,
                Some((ms, k)) => Some((seq![m] + ms, k)),
            },
        }
    }
}

/// Decode a full durable text: the note count, then exactly that many notes,
/// with nothing left over. `None` on any malformed input.
pub open spec fn spec_decode(s: Seq<char>) -> Option<Seq<MemoV>> {
    match sd_u64(s, 0) {
        None => None,
        Some((n, i)) => if n > usize::MAX as u64 {
            None
        } else {
            match sd_list(s, i, n as nat) {
                None => None,
                Some((ms, j)) => if j == s.len() {
                    Some(ms)
                } else {
                    None
                },
            }
        },
    }
}

// ------------------------------------------------------------------
// Round trip: decoding an encoding yields the notes back
// ------------------------------------------------------------------

/// `t` occurs in `s` at position `i`.
pub open spec fn matches_at(s: Seq<char>, i: int, t: Seq<char>) -> bool {
    0 <= i && i + t.len() <= s.len() && forall|k: int|
        0 <= k < t.len() ==> s[i + k] == #[trigger] t[k]
}

/// A match of a concatenation splits into a match of each part.
pub proof fn lemma_matches_at_concat(s: Seq<char>, i: int, a: Seq<char>, b: Seq<char>)
    requires
        matches_at(s, i, a + b),
    ensures
        matches_at(s, i, a),
        matches_at(s, i + a.len(), b),
{
    assert forall|k: int| 0 <= k < a.len() implies s[i + k] == #[trigger] a[k] by {
        assert((a + b)[k] == a[k]);
    }
    assert forall|k: int| 0 <= k < b.len() implies s[i + a.len() + k] == #[trigger] b[k] by {
        assert((a + b)[a.len() + k] == b[k]);
    }
}

/// Every character of a decimal rendering is a digit.
pub proof fn lemma_dec_digits_are_digits(n: nat)
    ensures
        dec_digits(n).len() >= 1,
        forall|k: int| 0 <= k < dec_digits(n).len() ==> is_digit(#[trigger] dec_digits(n)[k]),
    decreases n,
{
    if n < 10 {
    } else {
        lemma_dec_digits_are_digits(n / 10);
        assert forall|k: int| 0 <= k < dec_digits(n).len() implies is_digit(
            #[trigger] dec_digits(n)[k],
        ) by {
            if k < dec_digits(n / 10).len() {
                assert(dec_digits(n)[k] == dec_digits(n / 10)[k]);
            } else {
                assert(dec_digits(n)[k] == digit_char((n % 10) as int));
            }
        }
    }
}

/// A digit run bounded by a non-digit is exactly what `first_nondigit` skips.
pub proof fn lemma_first_nondigit_run(s: Seq<char>, i: int, j: int)
    requires
        0 <= i <= j <= s.len(),
        forall|k: int| i <= k < j ==> is_digit(#[trigger] s[k]),
        j == s.len() || !is_digit(s[j]),
    ensures
        first_nondigit(s, i) == j,
    decreases j - i,
{
    if i == j {
    } else {
        assert(is_digit(s[i]));
        lemma_first_nondigit_run(s, i + 1, j);
    }
}

/// The value of the digits of `n`, read back, is `n`.
pub proof fn lemma_digits_val_round(s: Seq<char>, i: int, n: nat)
    requires
        matches_at(s, i, dec_digits(n)),
    ensures
        digits_val(s, i, i + dec_digits(n).len()) == n,
    decreases n,
{
    lemma_dec_digits_are_digits(n);
    if n < 10 {
        assert(s[i] == dec_digits(n)[0]);
        assert(digits_val(s, i, i + 1) == digits_val(s, i, i) * 10 + digit_val(s[i]));
    } else {
        lemma_matches_at_concat(s, i, dec_digits(n / 10), seq![digit_char((n % 10) as int)]);
        lemma_digits_val_round(s, i, n / 10);
        let lp = dec_digits(n / 10).len();
        assert(seq![digit_char((n % 10) as int)][0] == digit_char((n % 10) as int));
        assert(s[i + lp] == seq![digit_char((n % 10) as int)][0]);
        assert(digits_val(s, i, i + lp + 1) == digits_val(s, i, i + lp) * 10 + digit_val(
            s[i + lp],
        ));
        assert(digit_val(digit_char((n % 10) as int)) == n % 10);
        lemma_fundamental_div_mod(n as int, 10);
    }
}

/// A number token at `i` parses back to its value.
pub proof fn lemma_sd_u64(s: Seq<char>, i: int, n: nat)
    requires
        matches_at(s, i, enc_nat(n)),
        n <= u64::MAX,
    ensures
        sd_u64(s, i) == Some((n as u64, i + enc_nat(n).len())),
{
    lemma_dec_digits_are_digits(n);
    lemma_matches_at_concat(s, i, dec_digits(n), seq![';']);
    let l = dec_digits(n).len();
    assert(seq![';'][0] == ';');
    assert(s[i + l] == seq![';'][0]);
    assert(s[i + l] == ';');
    assert forall|k: int| i <= k < i + l implies is_digit(#[trigger] s[k]) by {
        assert(s[k] == dec_digits(n)[k - i]);
    }
    assert(!is_digit(';'));
    lemma_first_nondigit_run(s, i, i + l);
    lemma_digits_val_round(s, i, n);
    assert(enc_nat(n).len() == l + 1);
}

/// A text token at `i` parses back to its text.
pub proof fn lemma_sd_str(s: Seq<char>, i: int, t: Seq<char>)
    requires
        matches_at(s, i, enc_str(t)),
        t.len() <= usize::MAX,
    ensures
        sd_str(s, i) == Some((t, i + enc_str(t).len())),
{
    lemma_matches_at_concat(s, i, enc_nat(t.len()), t);
    lemma_sd_u64(s, i, t.len());
    let j = i + enc_nat(t.len()).len();
    assert(s.subrange(j, j + t.len() as int) =~= t);
}

/// A boolean token at `i` parses back to its value.
pub proof fn lemma_sd_bool(s: Seq<char>, i: int, b: bool)
    requires
        matches_at(s, i, enc_bool(b)),
    ensures
        sd_bool(s, i) == Some((b, i + enc_bool(b).len())),
{
    assert(s[i] == enc_bool(b)[0]);
}

/// A coordinate token at `i` parses back to its value.
pub proof fn lemma_sd_coord(s: Seq<char>, i: int, v: i64)
    requires
        matches_at(s, i, enc_coord(v as int)),
    ensures
        sd_coord(s, i) == Some((v, i + enc_coord(v as int).len())),
{
    if v >= 0 {
        lemma_matches_at_concat(s, i, seq!['+'], enc_nat(v as nat));
        assert(seq!['+'][0] == '+');
        assert(s[i] == seq!['+'][0]);
        lemma_sd_u64(s, i + 1, v as nat);
    } else {
        lemma_matches_at_concat(s, i, seq!['-'], enc_nat((-(v as int)) as nat));
        assert(seq!['-'][0] == '-');
        assert(s[i] == seq!['-'][0]);
        lemma_sd_u64(s, i + 1, (-(v as int)) as nat);
        assert((-(v as int)) as nat <= (i64::MAX as u64) + 1);
    }
}

/// A window token at `i` parses back to its value.
pub proof fn lemma_sd_win(s: Seq<char>, i: int, w: Option<WindowState>)
    requires
        matches_at(s, i, enc_win(w)),
    ensures
        sd_win(s, i) == Some((w, i + enc_win(w).len())),
{
    match w {
        None => {
            assert(enc_win(w)[0] == 'N');
            assert(s[i] == enc_win(w)[0]);
        },
        Some(ws) => {
            let p0 = seq!['W'];
            let p1 = p0 + enc_bool(ws.is_open);
            let p2 = p1 + enc_coord(ws.x as int);
            let p3 = p2 + enc_coord(ws.y as int);
            let p4 = p3 + enc_coord(ws.width as int);
            let p5 = p4 + enc_coord(ws.height as int);
            let whole = p5 + enc_bool(ws.always_on_top);
            assert(enc_win(w) =~= whole);
            lemma_matches_at_concat(s, i, p5, enc_bool(ws.always_on_top));
            lemma_matches_at_concat(s, i, p4, enc_coord(ws.height as int));
            lemma_matches_at_concat(s, i, p3, enc_coord(ws.width as int));
            lemma_matches_at_concat(s, i, p2, enc_coord(ws.y as int));
            lemma_matches_at_concat(s, i, p1, enc_coord(ws.x as int));
            lemma_matches_at_concat(s, i, p0, enc_bool(ws.is_open));
            assert(p0[0] == 'W');
            assert(s[i] == p0[0]);
            lemma_sd_bool(s, i + p0.len(), ws.is_open);
            lemma_sd_coord(s, i + p1.len(), ws.x);
            lemma_sd_coord(s, i + p2.len(), ws.y);
            lemma_sd_coord(s, i + p3.len(), ws.width);
            lemma_sd_coord(s, i + p4.len(), ws.height);
            lemma_sd_bool(s, i + p5.len(), ws.always_on_top);
        },
    }
}

/// A note's fields all fit machine limits; true of every note an executable
/// store can hold.
pub open spec fn wf_memo_v(m: MemoV) -> bool {
    m.id.len() <= usize::MAX && m.title.len() <= usize::MAX && m.content.len() <= usize::MAX
        && m.color.len() <= usize::MAX
}

/// An encoded note at `i` parses back to its value.
pub proof fn lemma_sd_memo(s: Seq<char>, i: int, m: MemoV)
    requires
        matches_at(s, i, enc_memo(m)),
        wf_memo_v(m),
    ensures
        sd_memo(s, i) == Some((m, i + enc_memo(m).len())),
{
    let p1 = enc_str(m.id);
    let p2 = p1 + enc_str(m.title);
    let p3 = p2 + enc_str(m.content);
    let p4 = p3 + enc_str(m.color);
    let p5 = p4 + enc_nat(m.updated_at as nat);
    let whole = p5 + enc_win(m.window);
    assert(enc_memo(m) =~= whole);
    lemma_matches_at_concat(s, i, p5, enc_win(m.window));
    lemma_matches_at_concat(s, i, p4, enc_nat(m.updated_at as nat));
    lemma_matches_at_concat(s, i, p3, enc_str(m.color));
    lemma_matches_at_concat(s, i, p2, enc_str(m.content));
    lemma_matches_at_concat(s, i, p1, enc_str(m.title));
    lemma_sd_str(s, i, m.id);
    lemma_sd_str(s, i + p1.len(), m.title);
    lemma_sd_str(s, i + p2.len(), m.content);
    lemma_sd_str(s, i + p3.len(), m.color);
    lemma_sd_u64(s, i + p4.len(), m.updated_at as nat);
    lemma_sd_win(s, i + p5.len(), m.window);
}

/// An encoded run of notes at `i` parses back to exactly those notes.
pub proof fn lemma_sd_list(s: Seq<char>, i: int, ms: Seq<MemoV>, k: int)
    requires
        0 <= k <= ms.len(),
        matches_at(s, i, enc_list(ms, k)),
        forall|q: int| 0 <= q < ms.len() ==> wf_memo_v(#[trigger] ms[q]),
    ensures
        sd_list(s, i, (ms.len() - k) as nat) == Some((ms.skip(k), i + enc_list(ms, k).len())),
    decreases ms.len() - k,
{
    if k == ms.len() {
        assert(ms.skip(k) =~= Seq::<MemoV>::empty());
    } else {
        lemma_matches_at_concat(s, i, enc_memo(ms[k]), enc_list(ms, k + 1));
        lemma_sd_memo(s, i, ms[k]);
        lemma_sd_list(s, i + enc_memo(ms[k]).len(), ms, k + 1);
        assert(ms.skip(k) =~= seq![ms[k]] + ms.skip(k + 1));
    }
}

/// Round trip: decoding the encoding of any note sequence yields that
/// sequence back — same identities, fields and ordering.
pub proof fn lemma_decode_encode(ms: Seq<MemoV>)
    requires
        ms.len() <= usize::MAX,
        forall|q: int| 0 <= q < ms.len() ==> wf_memo_v(#[trigger] ms[q]),
    ensures
        spec_decode(enc_memos(ms)) == Some(ms),
{
    let s = enc_memos(ms);
    assert(matches_at(s, 0, enc_nat(ms.len()) + enc_list(ms, 0)));
    lemma_matches_at_concat(s, 0, enc_nat(ms.len()), enc_list(ms, 0));
    lemma_sd_u64(s, 0, ms.len());
    lemma_sd_list(s, enc_nat(ms.len()).len() as int, ms, 0);
    assert(ms.skip(0) =~= ms);
}

// ------------------------------------------------------------------
// Decoding (executable)
// ------------------------------------------------------------------

fn digit_of(c: char) -> (r: Option<u64>)
    ensures
        match r {
            Some(d) => is_digit(c) && d == digit_val(c),
            None => !is_digit(c),
        },
{
    if c == '0' {
        Some(0)
    } else if c == '1' {
        Some(1)
    } else if c == '2' {
        Some(2)
    } else if c == '3' {
        Some(3)
    } else if c == '4' {
        Some(4)
    } else if c == '5' {
        Some(5)
    } else if c == '6' {
        Some(6)
    } else if c == '7' {
        Some(7)
    } else if c == '8' {
        Some(8)
    } else if c == '9' {
        Some(9)
    } else {
        None
    }
}

fn parse_u64(s: &str, i: usize) -> (r: Option<(u64, usize)>)
    requires
        i <= s@.len(),
    ensures
        match r {
            Some(p) => sd_u64(s@, i as int) == Some((p.0, p.1 as int)) && i < p.1 <= s@.len(),
            None => sd_u64(s@, i as int) is None,
        },
{
    let n = s.unicode_len();
    let mut j = i;
    let mut val: u64 = 0;
    let mut ok = true;
    loop
        invariant
            i <= j <= n,
            n == s@.len(),
            forall|k: int| i <= k < j ==> is_digit(#[trigger] s@[k]),
            first_nondigit(s@, i as int) == first_nondigit(s@, j as int),
            ok ==> val == digits_val(s@, i as int, j as int),
            ok ==> digits_val(s@, i as int, j as int) <= u64::MAX,
            !ok ==> digits_val(s@, i as int, j as int) > u64::MAX,
            digits_val(s@, i as int, j as int) >= 0,
        decreases n - j,
    {
        if j >= n {
            return None;
        }
        let c = s.get_char(j);
        match digit_of(c) {
            None => {
                if j == i {
                    return None;
                }
                if c != ';' {
                    return None;
                }
                if !ok {
                    return None;
                }
                return Some((val, j + 1));
            },
            Some(d) => {
                proof {
                    assert(digits_val(s@, i as int, j + 1) == digits_val(s@, i as int, j as int)
                        * 10 + digit_val(s@[j as int]));
                    lemma_fundamental_div_mod((u64::MAX - d) as int, 10);
                }
                if ok {
                    if val <= (u64::MAX - d) / 10 {
                        val = val * 10 + d;
                    } else {
                        ok = false;
                    }
                }
                j = j + 1;
            },
        }
    }
}

fn parse_str(s: &str, i: usize) -> (r: Option<(String, usize)>)
    requires
        i <= s@.len(),
    ensures
        match r {
            Some(p) => sd_str(s@, i as int) == Some((p.0@, p.1 as int)) && i < p.1 <= s@.len(),
            None => sd_str(s@, i as int) is None,
        },
{
    match parse_u64(s, i) {
        None => None,
        Some((len64, j)) => {
            if len64 > usize::MAX as u64 {
                return None;
            }
            let l = len64 as usize;
            let n = s.unicode_len();
            if l > n - j {
                return None;
            }
            let sub = s.substring_char(j, j + l);
            let t = String::from_str(sub);
            Some((t, j + l))
        },
    }
}

fn parse_bool(s: &str, i: usize) -> (r: Option<(bool, usize)>)
    requires
        i <= s@.len(),
    ensures
        match r {
            Some(p) => sd_bool(s@, i as int) == Some((p.0, p.1 as int)) && i < p.1 <= s@.len(),
            None => sd_bool(s@, i as int) is None,
        },
{
    let n = s.unicode_len();
    if i >= n {
        return None;
    }
    let c = s.get_char(i);
    if c == 'T' {
        Some((true, i + 1))
    } else if c == 'F' {
        Some((false, i + 1))
    } else {
        None
    }
}

fn parse_coord(s: &str, i: usize) -> (r: Option<(i64, usize)>)
    requires
        i <= s@.len(),
    ensures
        match r {
            Some(p) => sd_coord(s@, i as int) == Some((p.0, p.1 as int)) && i < p.1 <= s@.len(),
            None => sd_coord(s@, i as int) is None,
        },
{
    let n = s.unicode_len();
    if i >= n {
        return None;
    }
    let c = s.get_char(i);
    if c == '+' {
        match parse_u64(s, i + 1) {
            None => None,
            Some((v, j)) => {
                if v > i64::MAX as u64 {
                    None
                } else {
                    Some((v as i64, j))
                }
            },
        }
    } else if c == '-' {
        match parse_u64(s, i + 1) {
            None => None,
            Some((v, j)) => {
                if v > (i64::MAX as u64) + 1 {
                    None
                } else if v == 0 {
                    Some((0i64, j))
                } else {
                    let res = -((v - 1) as i64) - 1;
                    Some((res, j))
                }
            },
        }
    } else {
        None
    }
}

fn parse_win(s: &str, i: usize) -> (r: Option<(Option<WindowState>, usize)>)
    requires
        i <= s@.len(),
    ensures
        match r {
            Some(p) => sd_win(s@, i as int) == Some((p.0, p.1 as int)) && i < p.1 <= s@.len(),
            None => sd_win(s@, i as int) is None,
        },
{
    let n = s.unicode_len();
    if i >= n {
        return None;
    }
    let c = s.get_char(i);
    if c == 'N' {
        return Some((None, i + 1));
    }
    if c != 'W' {
        return None;
    }
    match parse_bool(s, i + 1) {
        None => None,
        Some((o, j1)) => match parse_coord(s, j1) {
            None => None,
            Some((x, j2)) => match parse_coord(s, j2) {
                None => None,
                Some((y, j3)) => match parse_coord(s, j3) {
                    None => None,
                    Some((w, j4)) => match parse_coord(s, j4) {
                        None => None,
                        Some((h, j5)) => match parse_bool(s, j5) {
                            None => None,
                            Some((t, j6)) => Some(
                                (
                                    Some(
                                        WindowState {
                                            is_open: o,
                                            x: x,
                                            y: y,
                                            width: w,
                                            height: h,
                                            always_on_top: t,
                                        },
                                    ),
                                    j6,
                                ),
                            ),
                        },
                    },
                },
            },
        },
    }
}

fn parse_memo(s: &str, i: usize) -> (r: Option<(Memo, usize)>)
    requires
        i <= s@.len(),
    ensures
        match r {
            Some(p) => sd_memo(s@, i as int) == Some((p.0@, p.1 as int)) && i < p.1 <= s@.len(),
            None => sd_memo(s@, i as int) is None,
        },
{
    match parse_str(s, i) {
        None => None,
        Some((id, j1)) => match parse_str(s, j1) {
            None => None,
            Some((title, j2)) => match parse_str(s, j2) {
                None => None,
                Some((content, j3)) => match parse_str(s, j3) {
                    None => None,
                    Some((color, j4)) => match parse_u64(s, j4) {
                        None => None,
                        Some((ts, j5)) => match parse_win(s, j5) {
                            None => None,
                            Some((w, j6)) => Some(
                                (
                                    Memo {
                                        id: id,
                                        title: title,
                                        content: content,
                                        color: color,
                                        updated_at: ts,
                                        window: w,
                                    },
                                    j6,
                                ),
                            ),
                        },
                    },
                },
            },
        },
    }
}

/// Decode a full durable text back into notes: the compute half of startup
/// loading. Returns `None` on any malformed input.
pub fn decode_memos(s: &str) -> (r: Option<Vec<Memo>>)
    ensures
        match r {
            Some(v) => spec_decode(s@) == Some(memo_views(v@)),
            None => spec_decode(s@) is None,
        },
{
    let n_str = s.unicode_len();
    match parse_u64(s, 0) {
        None => None,
        Some((cnt, j0)) => {
            if cnt > usize::MAX as u64 {
                return None;
            }
            let cnt_us = cnt as usize;
            let mut acc: Vec<Memo> = Vec::new();
            let mut j = j0;
            let mut k: usize = 0;
            proof {
                lemma_memo_views(acc@);
            }
            while k < cnt_us
                invariant
                    k <= cnt_us,
                    j <= s@.len(),
                    n_str == s@.len(),
                    acc@.len() == k,
                    sd_u64(s@, 0) == Some((cnt, j0 as int)),
                    cnt == cnt_us,
                    match sd_list(s@, j as int, (cnt_us - k) as nat) {
                        Some(pr) => sd_list(s@, j0 as int, cnt_us as nat) == Some(
                            (memo_views(acc@) + pr.0, pr.1),
                        ),
                        None => sd_list(s@, j0 as int, cnt_us as nat) is None,
                    },
                decreases cnt_us - k,
            {
                match parse_memo(s, j) {
                    None => {
                        return None;
                    },
                    Some((m, j2)) => {
                        let ghost acc0 = acc@;
                        acc.push(m);
                        proof {
                            lemma_memo_views(acc0);
                            lemma_memo_views(acc@);
                            match sd_list(s@, j2 as int, (cnt_us - k - 1) as nat) {
                                Some(pr) => {
                                    assert(memo_views(acc@) + pr.0 =~= memo_views(acc0) + (seq![
                                        acc@[k as int]@,
                                    ] + pr.0));
                                },
                                None => {},
                            }
                        }
                        j = j2;
                        k = k + 1;
                    },
                }
            }
            proof {
                assert(sd_list(s@, j as int, (cnt_us - k) as nat) == Some(
                    (Seq::<MemoV>::empty(), j as int),
                ));
                assert(memo_views(acc@) + Seq::<MemoV>::empty() =~= memo_views(acc@));
            }
            if j == n_str {
                Some(acc)
            } else {
                None
            }
        },
    }
}

} // verus!
