//! A small JSON reader. Numbers are kept as they are written.

use vstd::prelude::*;
use vstd::string::*;

use crate::text;

verus! {

/// A JSON value.
pub enum Json {
    Null,
    Bool(bool),
    /// A number, as it is written.
    Num(String),
    Str(String),
    Array(Vec<Json>),
    Object(Vec<(String, Json)>),
}

/// What a JSON value says.
#[verifier::ext_equal]
pub enum Model {
    Null,
    Bool(bool),
    Num(Seq<char>),
    Str(Seq<char>),
    Array(Seq<Model>),
    Object(Seq<(Seq<char>, Model)>),
}

impl Json {
    pub open spec fn model(self) -> Model
        decreases self,
    {
        match self {
            Json::Null => Model::Null,
            Json::Bool(b) => Model::Bool(b),
            Json::Num(s) => Model::Num(s@),
            Json::Str(s) => Model::Str(s@),
            Json::Array(a) => Model::Array(models(a@)),
            Json::Object(p) => Model::Object(pair_models(p@)),
        }
    }
}

pub open spec fn models(s: Seq<Json>) -> Seq<Model>
    decreases s,
{
    if s.len() == 0 {
        Seq::empty()
    } else {
        models(s.subrange(0, s.len() - 1)).push(s[s.len() - 1].model())
    }
}

pub open spec fn pair_models(s: Seq<(String, Json)>) -> Seq<(Seq<char>, Model)>
    decreases s,
{
    if s.len() == 0 {
        Seq::empty()
    } else {
        pair_models(s.subrange(0, s.len() - 1)).push(
            (s[s.len() - 1].0@, s[s.len() - 1].1.model()),
        )
    }
}

proof fn lemma_models_push(s: Seq<Json>, v: Json)
    ensures
        models(s.push(v)) == models(s).push(v.model()),
{
    assert(s.push(v).subrange(0, s.push(v).len() - 1) =~= s);
}

proof fn lemma_pair_models_push(s: Seq<(String, Json)>, p: (String, Json))
    ensures
        pair_models(s.push(p)) == pair_models(s).push((p.0@, p.1.model())),
{
    assert(s.push(p).subrange(0, s.push(p).len() - 1) =~= s);
}

// ── Positions ──

/// How many bytes a character takes in UTF-8.
pub open spec fn utf8_len(c: char) -> nat {
    if (c as int) < 0x80 {
        1
    } else if (c as int) < 0x800 {
        2
    } else if (c as int) < 0x10000 {
        3
    } else {
        4
    }
}

/// The first byte of a character in UTF-8.
pub open spec fn lead_byte(c: char) -> int {
    if (c as int) < 0x80 {
        c as int
    } else if (c as int) < 0x800 {
        0xC0 + (c as int) / 64
    } else if (c as int) < 0x10000 {
        0xE0 + (c as int) / 4096
    } else {
        0xF0 + (c as int) / 262144
    }
}

/// Where the character at place `n` starts, in bytes.
pub open spec fn offset(cs: Seq<char>, n: int) -> nat
    decreases n,
{
    if n <= 0 {
        0
    } else {
        offset(cs, n - 1) + utf8_len(cs[n - 1])
    }
}

/// A byte offset written down.
pub open spec fn written_offset(cs: Seq<char>, n: int) -> Seq<char> {
    text::decimal(offset(cs, n))
}

/// A place past `i`: `j`, where that lies past it.
pub open spec fn past(j: int, i: int) -> int {
    if j > i {
        j
    } else {
        i + 1
    }
}

/// What is left from `i` on.
pub open spec fn left(cs: Seq<char>, i: int) -> nat {
    if i < cs.len() {
        (cs.len() - i) as nat
    } else {
        0
    }
}

pub open spec fn is_blank(c: char) -> bool {
    c == ' ' || c == '\t' || c == '\n' || c == '\r'
}

/// The first place from `i` on that is not blank.
pub open spec fn blank_end(cs: Seq<char>, i: int) -> int
    decreases left(cs, i),
{
    if 0 <= i < cs.len() && is_blank(cs[i]) {
        blank_end(cs, i + 1)
    } else {
        i
    }
}

// ── Strings ──

/// The character that a letter behind a backslash stands for.
pub open spec fn escaped(c: char) -> Option<char> {
    if c == '"' {
        Some('"')
    } else if c == '\\' {
        Some('\\')
    } else if c == '/' {
        Some('/')
    } else if c == 'n' {
        Some('\n')
    } else if c == 'r' {
        Some('\r')
    } else if c == 't' {
        Some('\t')
    } else if c == 'b' {
        Some('\u{8}')
    } else if c == 'f' {
        Some('\u{c}')
    } else {
        None
    }
}

/// The value of a hexadecimal digit.
pub open spec fn hex_digit(c: char) -> Option<nat> {
    let n = c as int;
    if 0x30 <= n <= 0x39 {
        Some((n - 0x30) as nat)
    } else if 0x61 <= n <= 0x66 {
        Some((n - 0x61 + 10) as nat)
    } else if 0x41 <= n <= 0x46 {
        Some((n - 0x41 + 10) as nat)
    } else {
        None
    }
}

/// The value of a run of hexadecimal digits.
pub open spec fn hex_run(s: Seq<char>) -> Option<nat>
    decreases s.len(),
{
    if s.len() == 0 {
        Some(0)
    } else {
        match (hex_run(s.drop_last()), hex_digit(s.last())) {
            (Some(a), Some(d)) => Some(16 * a + d),
            _ => None,
        }
    }
}

/// The code that an escape writes down; a plus sign may lead.
pub open spec fn hex_code(s: Seq<char>) -> Option<nat> {
    if s.len() > 1 && s[0] == '+' {
        hex_run(s.drop_first())
    } else {
        hex_run(s)
    }
}

/// Whether a code is that of a character.
pub open spec fn is_scalar(n: int) -> bool {
    0 <= n <= 0xD7FF || 0xE000 <= n <= 0x10FFFF
}

/// How many characters from `k` on make up four bytes, if they end there.
pub open spec fn four_bytes(cs: Seq<char>, k: int) -> Option<int> {
    if offset(cs, k + 1) - offset(cs, k) == 4 {
        Some(1)
    } else if offset(cs, k + 2) - offset(cs, k) == 4 {
        Some(2)
    } else if offset(cs, k + 3) - offset(cs, k) == 4 {
        Some(3)
    } else if offset(cs, k + 4) - offset(cs, k) == 4 {
        Some(4)
    } else {
        None
    }
}

/// The complaint about a place inside a character.
pub open spec fn boundary_message(cs: Seq<char>, i: int) -> Seq<char> {
    "not a character boundary behind "@ + written_offset(cs, i)
}

/// The rest of a string from `i` on, `acc` being what was read before: its text and the place
/// behind it, or the complaint.
pub open spec fn string_rest(cs: Seq<char>, i: int, acc: Seq<char>) -> Result<
    (Seq<char>, int),
    Seq<char>,
>
    decreases left(cs, i),
{
    if i < 0 || i >= cs.len() {
        Err("unterminated string"@)
    } else if cs[i] == '"' {
        Ok((acc, i + 1))
    } else if cs[i] != '\\' {
        string_rest(cs, i + 1, acc.push(cs[i]))
    } else if i + 1 >= cs.len() {
        Err("unterminated string escape"@)
    } else if cs[i + 1] == 'u' {
        if offset(cs, cs.len() as int) - offset(cs, i + 2) < 4 {
            Err("incomplete unicode escape"@)
        } else {
            match four_bytes(cs, i + 2) {
                None => Err(boundary_message(cs, i + 1)),
                Some(n) => match hex_code(cs.subrange(i + 2, i + 2 + n)) {
                    None => Err(
                        "invalid unicode escape: \\u"@ + cs.subrange(i + 2, i + 2 + n),
                    ),
                    Some(code) => if is_scalar(code as int) {
                        string_rest(cs, past(i + 2 + n, i), acc.push(code as char))
                    } else {
                        string_rest(cs, past(i + 2 + n, i), acc)
                    },
                },
            }
        }
    } else {
        match escaped(cs[i + 1]) {
            Some(c) => string_rest(cs, i + 2, acc.push(c)),
            None => if utf8_len(cs[i + 1]) == 1 {
                string_rest(cs, i + 2, acc.push('\\').push(cs[i + 1]))
            } else {
                Err(boundary_message(cs, i + 1))
            },
        }
    }
}

// ── Numbers ──

/// The end of the digits from `i` on.
pub open spec fn digits_end(cs: Seq<char>, i: int) -> int
    decreases left(cs, i),
{
    if 0 <= i < cs.len() && text::is_digit(cs[i]) {
        digits_end(cs, i + 1)
    } else {
        i
    }
}

pub open spec fn stands(cs: Seq<char>, i: int, c: char) -> bool {
    0 <= i < cs.len() && cs[i] == c
}

/// The parts of a number: the start of its whole digits and their end, the end of its
/// fraction, the start of its exponent's digits and the end of all.
pub open spec fn number_marks(cs: Seq<char>, i: int) -> (int, int, int, int, int) {
    let a = if stands(cs, i, '-') {
        i + 1
    } else {
        i
    };
    let b = digits_end(cs, a);
    let c = if stands(cs, b, '.') {
        digits_end(cs, b + 1)
    } else {
        b
    };
    if stands(cs, c, 'e') || stands(cs, c, 'E') {
        let d = if stands(cs, c + 1, '+') || stands(cs, c + 1, '-') {
            c + 2
        } else {
            c + 1
        };
        (a, b, c, d, digits_end(cs, d))
    } else {
        (a, b, c, c, c)
    }
}

/// Whether the marks are those of a number: some digit before the exponent and, where there is
/// an exponent, some digit in it.
pub open spec fn is_number(m: (int, int, int, int, int)) -> bool {
    (m.1 > m.0 || m.2 > m.1 + 1) && (m.3 > m.2 ==> m.4 > m.3)
}

/// The number at `i`, and the place behind it.
pub open spec fn number_at(cs: Seq<char>, i: int) -> Result<(Model, int), Seq<char>> {
    let m = number_marks(cs, i);
    if is_number(m) {
        Ok((Model::Num(cs.subrange(i, m.4)), m.4))
    } else {
        Err("invalid number: "@ + cs.subrange(i, m.4))
    }
}

// ── Values ──

/// The word at `i` that stands for a value, and the place behind it.
pub open spec fn word_at(cs: Seq<char>, i: int) -> Result<(Model, int), Seq<char>> {
    if cs[i] == 'n' {
        if text::occurs_at(cs, "null"@, i) {
            Ok((Model::Null, i + 4))
        } else {
            Err("expected null at "@ + written_offset(cs, i))
        }
    } else if text::occurs_at(cs, "true"@, i) {
        Ok((Model::Bool(true), i + 4))
    } else if text::occurs_at(cs, "false"@, i) {
        Ok((Model::Bool(false), i + 5))
    } else {
        Err("expected bool at "@ + written_offset(cs, i))
    }
}

/// The value at or behind the blanks at `i`, and the place behind it, or the complaint.
pub open spec fn value_at(cs: Seq<char>, i: int) -> Result<(Model, int), Seq<char>>
    decreases left(cs, i), 1int,
{
    let p = blank_end(cs, i);
    if p < i || p < 0 || p >= cs.len() {
        Err("unexpected end of input"@)
    } else {
        let c = cs[p];
        if c == '"' {
            match string_rest(cs, p + 1, Seq::empty()) {
                Ok((s, j)) => Ok((Model::Str(s), j)),
                Err(e) => Err(e),
            }
        } else if c == '{' {
            object_at(cs, p)
        } else if c == '[' {
            array_at(cs, p)
        } else if c == 't' || c == 'f' || c == 'n' {
            word_at(cs, p)
        } else if c == '-' || text::is_digit(c) {
            number_at(cs, p)
        } else {
            Err(
                "unexpected char '"@ + seq![lead_byte(c) as char] + "' at position "@
                    + written_offset(cs, p),
            )
        }
    }
}

/// The array whose bracket stands at `p`.
pub open spec fn array_at(cs: Seq<char>, p: int) -> Result<(Model, int), Seq<char>>
    decreases left(cs, p), 0int,
{
    let q = blank_end(cs, p + 1);
    if p < 0 || p >= cs.len() {
        Err("unexpected end of input"@)
    } else if stands(cs, q, ']') {
        Ok((Model::Array(Seq::empty()), q + 1))
    } else {
        items_at(cs, past(q, p), Seq::empty())
    }
}

/// The items of an array from `i` on, `acc` being those before.
pub open spec fn items_at(cs: Seq<char>, i: int, acc: Seq<Model>) -> Result<
    (Model, int),
    Seq<char>,
>
    decreases left(cs, i), 2int,
{
    if i < 0 || i >= cs.len() {
        Err("unexpected end of input"@)
    } else {
        match value_at(cs, i) {
            Err(e) => Err(e),
            Ok((v, j)) => {
                let k = blank_end(cs, j);
                if k < 0 || k >= cs.len() {
                    Err("unterminated array"@)
                } else if cs[k] == ']' {
                    Ok((Model::Array(acc.push(v)), k + 1))
                } else if cs[k] != ',' {
                    Err("expected ',' or ']' at "@ + written_offset(cs, k))
                } else {
                    items_at(cs, past(blank_end(cs, k + 1), i), acc.push(v))
                }
            },
        }
    }
}

/// The object whose brace stands at `p`.
pub open spec fn object_at(cs: Seq<char>, p: int) -> Result<(Model, int), Seq<char>>
    decreases left(cs, p), 0int,
{
    let q = blank_end(cs, p + 1);
    if p < 0 || p >= cs.len() {
        Err("unexpected end of input"@)
    } else if stands(cs, q, '}') {
        Ok((Model::Object(Seq::empty()), q + 1))
    } else {
        pairs_at(cs, past(q, p), Seq::empty())
    }
}

/// The pairs of an object from `i` on, `acc` being those before. What stands where a key
/// begins is taken for its quote.
pub open spec fn pairs_at(cs: Seq<char>, i: int, acc: Seq<(Seq<char>, Model)>) -> Result<
    (Model, int),
    Seq<char>,
>
    decreases left(cs, i), 2int,
{
    let a = blank_end(cs, i);
    if i < 0 || a < i || a >= cs.len() {
        Err("unterminated object"@)
    } else if utf8_len(cs[a]) != 1 {
        Err(boundary_message(cs, a))
    } else {
        match string_rest(cs, a + 1, Seq::empty()) {
            Err(e) => Err(e),
            Ok((key, b)) => {
                let c = blank_end(cs, b);
                if !stands(cs, c, ':') {
                    Err("expected ':' at "@ + written_offset(cs, c))
                } else {
                    match value_at(cs, past(c + 1, i)) {
                        Err(e) => Err(e),
                        Ok((v, d)) => {
                            let k = blank_end(cs, d);
                            if k < 0 || k >= cs.len() {
                                Err("unterminated object"@)
                            } else if cs[k] == '}' {
                                Ok((Model::Object(acc.push((key, v))), k + 1))
                            } else if cs[k] != ',' {
                                Err("expected ',' or '}' at "@ + written_offset(cs, k))
                            } else {
                                pairs_at(cs, past(k + 1, i), acc.push((key, v)))
                            }
                        },
                    }
                }
            },
        }
    }
}

/// What a text reads as, blanks around it aside; what follows the value does not matter.
pub open spec fn parsed(s: Seq<char>) -> Result<Model, Seq<char>> {
    match value_at(text::trim(s), 0) {
        Ok((v, _)) => Ok(v),
        Err(e) => Err(e),
    }
}

// ── Reading ──

/// `char::from_u32`: the character with a code, where the code is that of one.
pub assume_specification[ char::from_u32 ](i: u32) -> (r: Option<char>)
    ensures
        match r {
            Some(c) => is_scalar(i as int) && c as int == i as int,
            None => !is_scalar(i as int),
        },
;

fn width(c: char) -> (r: u128)
    ensures
        r == utf8_len(c),
{
    let n: u32 = c as u32;
    if n < 0x80 {
        1
    } else if n < 0x800 {
        2
    } else if n < 0x10000 {
        3
    } else {
        4
    }
}

/// Where the character at place `n` starts, in bytes.
fn byte_offset(cs: &Vec<char>, n: usize) -> (r: u128)
    requires
        n <= cs.len(),
    ensures
        r == offset(cs@, n as int),
        r <= 4 * n,
{
    let mut total: u128 = 0;
    let mut i: usize = 0;
    while i < n
        invariant
            i <= n <= cs.len(),
            total == offset(cs@, i as int),
            total <= 4 * i,
        decreases n - i,
    {
        total = total + width(cs[i]);
        i += 1;
    }
    total
}

fn offset_text(cs: &Vec<char>, n: usize) -> (r: String)
    requires
        n <= cs.len(),
    ensures
        r@ == written_offset(cs@, n as int),
{
    let o = byte_offset(cs, n);
    text::wide_decimal_of(o)
}

fn skip_blanks(cs: &Vec<char>, i: usize) -> (r: usize)
    requires
        i <= cs.len(),
    ensures
        r == blank_end(cs@, i as int),
        i <= r <= cs.len(),
{
    let mut k: usize = i;
    while k < cs.len() && (cs[k] == ' ' || cs[k] == '\t' || cs[k] == '\n' || cs[k] == '\r')
        invariant
            i <= k <= cs.len(),
            blank_end(cs@, k as int) == blank_end(cs@, i as int),
        decreases cs.len() - k,
    {
        k += 1;
    }
    k
}

fn unescape(c: char) -> (r: Option<char>)
    ensures
        r == escaped(c),
{
    if c == '"' {
        Some('"')
    } else if c == '\\' {
        Some('\\')
    } else if c == '/' {
        Some('/')
    } else if c == 'n' {
        Some('\n')
    } else if c == 'r' {
        Some('\r')
    } else if c == 't' {
        Some('\t')
    } else if c == 'b' {
        Some('\u{8}')
    } else if c == 'f' {
        Some('\u{c}')
    } else {
        None
    }
}

fn hex_value(c: char) -> (r: Option<u32>)
    ensures
        match r {
            Some(d) => hex_digit(c) == Some(d as nat) && d < 16,
            None => hex_digit(c) is None,
        },
{
    let n: u32 = c as u32;
    if 0x30 <= n && n <= 0x39 {
        Some(n - 0x30)
    } else if 0x61 <= n && n <= 0x66 {
        Some(n - 0x61 + 10)
    } else if 0x41 <= n && n <= 0x46 {
        Some(n - 0x41 + 10)
    } else {
        None
    }
}

/// The code that the characters from `from` to `to` write down.
fn read_code(cs: &Vec<char>, from: usize, to: usize) -> (r: Option<u32>)
    requires
        from <= to <= cs.len(),
        to - from <= 4,
    ensures
        match r {
            Some(n) => hex_code(cs@.subrange(from as int, to as int)) == Some(n as nat),
            None => hex_code(cs@.subrange(from as int, to as int)) is None,
        },
{
    let ghost s = cs@.subrange(from as int, to as int);
    let start: usize = if to - from > 1 && cs[from] == '+' {
        from + 1
    } else {
        from
    };
    let ghost run = cs@.subrange(start as int, to as int);
    assert(start == from + 1 ==> run =~= s.drop_first());
    assert(hex_code(s) == hex_run(run));
    let mut value: u32 = 0;
    let mut i: usize = start;
    assert(run.take(0) =~= Seq::<char>::empty());
    while i < to
        invariant
            start <= i <= to <= cs.len(),
            to - start <= 4,
            run == cs@.subrange(start as int, to as int),
            hex_run(run.take(i - start)) == Some(value as nat),
            i - start == 0 ==> value == 0,
            i - start == 1 ==> value < 0x10,
            i - start == 2 ==> value < 0x100,
            i - start == 3 ==> value < 0x1000,
        decreases to - i,
    {
        assert(run.take(i + 1 - start).drop_last() =~= run.take(i - start));
        assert(run.take(i + 1 - start).last() == cs@[i as int]);
        match hex_value(cs[i]) {
            Some(d) => {
                value = 16 * value + d;
            },
            None => {
                proof {
                    lemma_hex_run_fails(run, i + 1 - start);
                }
                return None;
            },
        }
        i += 1;
    }
    assert(run.take(to - start) =~= run);
    Some(value)
}

proof fn lemma_hex_run_fails(run: Seq<char>, n: int)
    requires
        0 <= n <= run.len(),
        hex_run(run.take(n)) is None,
    ensures
        hex_run(run) is None,
    decreases run.len() - n,
{
    if n < run.len() {
        assert(run.take(n + 1).drop_last() =~= run.take(n));
        lemma_hex_run_fails(run, n + 1);
    } else {
        assert(run.take(n) =~= run);
    }
}

/// How many characters from `k` on make up four bytes, if they end there.
fn count_four_bytes(cs: &Vec<char>, k: usize) -> (r: Option<usize>)
    requires
        k <= cs.len(),
        offset(cs@, cs@.len() as int) - offset(cs@, k as int) >= 4,
    ensures
        match r {
            Some(n) => four_bytes(cs@, k as int) == Some(n as int) && k + n <= cs.len() && 1 <= n
                <= 4,
            None => four_bytes(cs@, k as int) is None,
        },
{
    let mut n: usize = 0;
    let mut total: u128 = 0;
    while n < 4 && k + n < cs.len() && total < 4
        invariant
            n <= 4,
            k + n <= cs.len(),
            total == offset(cs@, k + n) - offset(cs@, k as int),
            n <= total <= 4 * n,
            forall|m: int| 0 < m < n ==> #[trigger] offset(cs@, k + m) - offset(cs@, k as int) < 4,
        decreases 4 - n,
    {
        total = total + width(cs[k + n]);
        n += 1;
    }
    proof {
        if total < 4 && k + n == cs.len() {
            assert(false);
        }
        assert(offset(cs@, k + 1) - offset(cs@, k as int) >= 1);
        lemma_offset_grows(cs@, k + n, k + 4);
        lemma_offset_grows(cs@, k + n, k + 3);
        lemma_offset_grows(cs@, k + n, k + 2);
        assert(n >= 1);
        if total == 4 {
            assert(n == 1 || offset(cs@, k + 1) - offset(cs@, k as int) < 4);
            assert(n <= 2 || offset(cs@, k + 2) - offset(cs@, k as int) < 4);
            assert(n <= 3 || offset(cs@, k + 3) - offset(cs@, k as int) < 4);
        } else {
            assert(total > 4);
            assert(n == 1 || offset(cs@, k + 1) - offset(cs@, k as int) < 4);
            assert(n <= 2 || offset(cs@, k + 2) - offset(cs@, k as int) < 4);
            assert(n <= 3 || offset(cs@, k + 3) - offset(cs@, k as int) < 4);
        }
    }
    if total == 4 {
        Some(n)
    } else {
        None
    }
}

proof fn lemma_offset_grows(cs: Seq<char>, a: int, b: int)
    requires
        0 <= a,
    ensures
        a <= b ==> offset(cs, a) <= offset(cs, b),
        a < b ==> offset(cs, a) < offset(cs, b),
    decreases b - a,
{
    if a < b {
        lemma_offset_grows(cs, a, b - 1);
    }
}

/// The rest of a string from `i` on.
fn read_string(cs: &Vec<char>, i: usize) -> (r: Result<(String, usize), String>)
    requires
        i <= cs.len(),
    ensures
        match r {
            Ok((s, j)) => string_rest(cs@, i as int, Seq::empty()) == Ok::<
                (Seq<char>, int),
                Seq<char>,
            >((s@, j as int)) && i < j <= cs.len(),
            Err(e) => string_rest(cs@, i as int, Seq::empty()) == Err::<
                (Seq<char>, int),
                Seq<char>,
            >(e@),
        },
{
    let ghost whole = string_rest(cs@, i as int, Seq::empty());
    let mut acc = String::new();
    let mut k: usize = i;
    assert(acc@ =~= Seq::<char>::empty());
    while k < cs.len()
        invariant
            i <= k <= cs.len(),
            string_rest(cs@, k as int, acc@) == whole,
        decreases cs.len() - k,
    {
        let c = cs[k];
        if c == '"' {
            return Ok((acc, k + 1));
        }
        if c != '\\' {
            acc.push(c);
            k += 1;
            continue;
        }
        if k + 1 >= cs.len() {
            return Err("unterminated string escape".to_string());
        }
        let e = cs[k + 1];
        if e == 'u' {
            let total = byte_offset(cs, cs.len());
            let here = byte_offset(cs, k + 2);
            proof {
                lemma_offset_grows(cs@, k + 2, cs@.len() as int);
            }
            if total - here < 4 {
                return Err("incomplete unicode escape".to_string());
            }
            match count_four_bytes(cs, k + 2) {
                None => {
                    let at = offset_text(cs, k + 1);
                    return Err(text::cat2("not a character boundary behind ", at.as_str()));
                },
                Some(n) => {
                    let to: usize = k + 2 + n;
                    match read_code(cs, k + 2, to) {
                        None => {
                            let hex = text::slice_text(cs, k + 2, to);
                            return Err(text::cat2("invalid unicode escape: \\u", hex.as_str()));
                        },
                        Some(code) => {
                            if let Some(x) = char::from_u32(code) {
                                assert(x == code as char);
                                acc.push(x);
                            }
                            k = to;
                        },
                    }
                },
            }
        } else {
            match unescape(e) {
                Some(x) => {
                    acc.push(x);
                    k += 2;
                },
                None => {
                    if width(e) != 1 {
                        let at = offset_text(cs, k + 1);
                        return Err(text::cat2("not a character boundary behind ", at.as_str()));
                    }
                    acc.push('\\');
                    acc.push(e);
                    k += 2;
                },
            }
        }
    }
    Err("unterminated string".to_string())
}

fn skip_digits(cs: &Vec<char>, i: usize) -> (r: usize)
    requires
        i <= cs.len(),
    ensures
        r == digits_end(cs@, i as int),
        i <= r <= cs.len(),
{
    let mut k: usize = i;
    while k < cs.len() && '0' <= cs[k] && cs[k] <= '9'
        invariant
            i <= k <= cs.len(),
            digits_end(cs@, k as int) == digits_end(cs@, i as int),
        decreases cs.len() - k,
    {
        k += 1;
    }
    k
}

fn has_at(cs: &Vec<char>, i: usize, c: char) -> (r: bool)
    ensures
        r == stands(cs@, i as int, c),
{
    i < cs.len() && cs[i] == c
}

fn read_number(cs: &Vec<char>, i: usize) -> (r: Result<(Json, usize), String>)
    requires
        i < cs.len(),
        cs@[i as int] == '-' || text::is_digit(cs@[i as int]),
    ensures
        match r {
            Ok((v, j)) => number_at(cs@, i as int) == Ok::<(Model, int), Seq<char>>(
                (v.model(), j as int),
            ) && i < j <= cs.len(),
            Err(e) => number_at(cs@, i as int) == Err::<(Model, int), Seq<char>>(e@),
        },
{
    let a: usize = if has_at(cs, i, '-') {
        i + 1
    } else {
        i
    };
    let b = skip_digits(cs, a);
    let c: usize = if has_at(cs, b, '.') {
        skip_digits(cs, b + 1)
    } else {
        b
    };
    let mut d: usize = c;
    let mut end: usize = c;
    if has_at(cs, c, 'e') || has_at(cs, c, 'E') {
        d = if has_at(cs, c + 1, '+') || has_at(cs, c + 1, '-') {
            c + 2
        } else {
            c + 1
        };
        end = skip_digits(cs, d);
    }
    assert(number_marks(cs@, i as int) == (a as int, b as int, c as int, d as int, end as int));
    let lexeme = text::slice_text(cs, i, end);
    let whole = b > a || (c > b && c - b > 1);
    if whole && (d == c || end > d) {
        Ok((Json::Num(lexeme), end))
    } else {
        Err(text::cat2("invalid number: ", lexeme.as_str()))
    }
}

fn read_word(cs: &Vec<char>, i: usize) -> (r: Result<(Json, usize), String>)
    requires
        i < cs.len(),
    ensures
        match r {
            Ok((v, j)) => word_at(cs@, i as int) == Ok::<(Model, int), Seq<char>>(
                (v.model(), j as int),
            ) && i < j <= cs.len(),
            Err(e) => word_at(cs@, i as int) == Err::<(Model, int), Seq<char>>(e@),
        },
{
    proof {
        reveal_strlit("null");
        reveal_strlit("true");
        reveal_strlit("false");
    }
    if cs[i] == 'n' {
        let word = text::chars_of("null");
        if text::stands_at(cs, &word, i) {
            return Ok((Json::Null, i + 4));
        }
        let at = offset_text(cs, i);
        return Err(text::cat2("expected null at ", at.as_str()));
    }
    let word = text::chars_of("true");
    if text::stands_at(cs, &word, i) {
        return Ok((Json::Bool(true), i + 4));
    }
    let word = text::chars_of("false");
    if text::stands_at(cs, &word, i) {
        return Ok((Json::Bool(false), i + 5));
    }
    let at = offset_text(cs, i);
    Err(text::cat2("expected bool at ", at.as_str()))
}

/// The first byte of a character, shown as the character with that code.
fn lead_text(c: char) -> (r: String)
    ensures
        r@ == seq![lead_byte(c) as char],
{
    let n: u32 = c as u32;
    let lead: u32 = if n < 0x80 {
        n
    } else if n < 0x800 {
        0xC0 + n / 64
    } else if n < 0x10000 {
        0xE0 + n / 4096
    } else {
        0xF0 + n / 262144
    };
    let mut shown = String::new();
    if let Some(x) = char::from_u32(lead) {
        assert(x == lead_byte(c) as char);
        shown.push(x);
    }
    assert(shown@ =~= seq![lead_byte(c) as char]);
    shown
}

fn unexpected(cs: &Vec<char>, p: usize) -> (r: String)
    requires
        p < cs.len(),
    ensures
        r@ == "unexpected char '"@ + seq![lead_byte(cs@[p as int]) as char] + "' at position "@
            + written_offset(cs@, p as int),
{
    let shown = lead_text(cs[p]);
    let at = offset_text(cs, p);
    text::cat4("unexpected char '", shown.as_str(), "' at position ", at.as_str())
}

fn read_value(cs: &Vec<char>, i: usize) -> (r: Result<(Json, usize), String>)
    requires
        i <= cs.len(),
    ensures
        match r {
            Ok((v, j)) => value_at(cs@, i as int) == Ok::<(Model, int), Seq<char>>(
                (v.model(), j as int),
            ) && i < j <= cs.len(),
            Err(e) => value_at(cs@, i as int) == Err::<(Model, int), Seq<char>>(e@),
        },
    decreases cs.len() - i, 1int,
{
    let p = skip_blanks(cs, i);
    if p >= cs.len() {
        return Err("unexpected end of input".to_string());
    }
    let c = cs[p];
    if c == '"' {
        match read_string(cs, p + 1) {
            Ok((s, j)) => Ok((Json::Str(s), j)),
            Err(e) => Err(e),
        }
    } else if c == '{' {
        read_object(cs, p)
    } else if c == '[' {
        read_array(cs, p)
    } else if c == 't' || c == 'f' || c == 'n' {
        read_word(cs, p)
    } else if c == '-' || ('0' <= c && c <= '9') {
        read_number(cs, p)
    } else {
        Err(unexpected(cs, p))
    }
}

fn read_array(cs: &Vec<char>, p: usize) -> (r: Result<(Json, usize), String>)
    requires
        p < cs.len(),
    ensures
        match r {
            Ok((v, j)) => array_at(cs@, p as int) == Ok::<(Model, int), Seq<char>>(
                (v.model(), j as int),
            ) && p < j <= cs.len(),
            Err(e) => array_at(cs@, p as int) == Err::<(Model, int), Seq<char>>(e@),
        },
    decreases cs.len() - p, 0int,
{
    let q = skip_blanks(cs, p + 1);
    let mut items: Vec<Json> = Vec::new();
    assert(models(items@) =~= Seq::<Model>::empty());
    if has_at(cs, q, ']') {
        return Ok((Json::Array(items), q + 1));
    }
    let mut i: usize = q;
    while i < cs.len()
        invariant
            p < i <= cs.len(),
            items_at(cs@, i as int, models(items@)) == array_at(cs@, p as int),
        decreases cs.len() - i,
    {
        let (v, j) = match read_value(cs, i) {
            Ok(x) => x,
            Err(e) => return Err(e),
        };
        proof {
            lemma_models_push(items@, v);
        }
        items.push(v);
        let k = skip_blanks(cs, j);
        if k >= cs.len() {
            return Err("unterminated array".to_string());
        }
        if cs[k] == ']' {
            return Ok((Json::Array(items), k + 1));
        }
        if cs[k] != ',' {
            let at = offset_text(cs, k);
            return Err(text::cat2("expected ',' or ']' at ", at.as_str()));
        }
        i = skip_blanks(cs, k + 1);
    }
    Err("unexpected end of input".to_string())
}

fn read_object(cs: &Vec<char>, p: usize) -> (r: Result<(Json, usize), String>)
    requires
        p < cs.len(),
    ensures
        match r {
            Ok((v, j)) => object_at(cs@, p as int) == Ok::<(Model, int), Seq<char>>(
                (v.model(), j as int),
            ) && p < j <= cs.len(),
            Err(e) => object_at(cs@, p as int) == Err::<(Model, int), Seq<char>>(e@),
        },
    decreases cs.len() - p, 0int,
{
    let q = skip_blanks(cs, p + 1);
    let mut pairs: Vec<(String, Json)> = Vec::new();
    assert(pair_models(pairs@) =~= Seq::<(Seq<char>, Model)>::empty());
    if has_at(cs, q, '}') {
        return Ok((Json::Object(pairs), q + 1));
    }
    let mut i: usize = q;
    loop
        invariant
            p < i <= cs.len(),
            pairs_at(cs@, i as int, pair_models(pairs@)) == object_at(cs@, p as int),
        decreases cs.len() - i,
    {
        let a = skip_blanks(cs, i);
        if a >= cs.len() {
            return Err("unterminated object".to_string());
        }
        if width(cs[a]) != 1 {
            let at = offset_text(cs, a);
            return Err(text::cat2("not a character boundary behind ", at.as_str()));
        }
        let (key, b) = match read_string(cs, a + 1) {
            Ok(x) => x,
            Err(e) => return Err(e),
        };
        let c = skip_blanks(cs, b);
        if !has_at(cs, c, ':') {
            let at = offset_text(cs, c);
            return Err(text::cat2("expected ':' at ", at.as_str()));
        }
        let (v, d) = match read_value(cs, c + 1) {
            Ok(x) => x,
            Err(e) => return Err(e),
        };
        proof {
            lemma_pair_models_push(pairs@, (key, v));
        }
        pairs.push((key, v));
        let k = skip_blanks(cs, d);
        if k >= cs.len() {
            return Err("unterminated object".to_string());
        }
        if cs[k] == '}' {
            return Ok((Json::Object(pairs), k + 1));
        }
        if cs[k] != ',' {
            let at = offset_text(cs, k);
            return Err(text::cat2("expected ',' or '}' at ", at.as_str()));
        }
        i = k + 1;
    }
}

/// Read a JSON value. Nothing is asked of what follows it.
pub fn parse_json(s: &str) -> (r: Result<Json, String>)
    ensures
        match r {
            Ok(v) => parsed(s@) == Ok::<Model, Seq<char>>(v.model()),
            Err(e) => parsed(s@) == Err::<Model, Seq<char>>(e@),
        },
{
    let t = text::trimmed(s);
    let cs = text::chars_of(t.as_str());
    match read_value(&cs, 0) {
        Ok((v, _)) => Ok(v),
        Err(e) => Err(e),
    }
}

// ── Looking things up ──

/// The first value at a key, `Null` where there is none.
pub open spec fn member(m: Model, key: Seq<char>) -> Model {
    match m {
        Model::Object(pairs) => member_of(pairs, key),
        _ => Model::Null,
    }
}

pub open spec fn member_of(pairs: Seq<(Seq<char>, Model)>, key: Seq<char>) -> Model
    decreases pairs.len(),
{
    if pairs.len() == 0 {
        Model::Null
    } else if pairs[0].0 == key {
        pairs[0].1
    } else {
        member_of(pairs.drop_first(), key)
    }
}

/// The elements of an array, none where the value is no array.
pub open spec fn elements(m: Model) -> Seq<Model> {
    match m {
        Model::Array(a) => a,
        _ => Seq::empty(),
    }
}

proof fn lemma_pair_models(s: Seq<(String, Json)>)
    ensures
        pair_models(s).len() == s.len(),
        forall|i: int|
            0 <= i < s.len() ==> #[trigger] pair_models(s)[i] == (s[i].0@, s[i].1.model()),
    decreases s.len(),
{
    if s.len() > 0 {
        let init = s.subrange(0, s.len() - 1);
        lemma_pair_models(init);
        assert forall|i: int| 0 <= i < s.len() implies #[trigger] pair_models(s)[i] == (
            s[i].0@,
            s[i].1.model(),
        ) by {
            if i < init.len() {
                assert(init[i] == s[i]);
            }
        }
    }
}

pub proof fn lemma_models(s: Seq<Json>)
    ensures
        models(s).len() == s.len(),
        forall|i: int| 0 <= i < s.len() ==> #[trigger] models(s)[i] == s[i].model(),
    decreases s.len(),
{
    if s.len() > 0 {
        let init = s.subrange(0, s.len() - 1);
        lemma_models(init);
        assert forall|i: int| 0 <= i < s.len() implies #[trigger] models(s)[i] == s[i].model() by {
            if i < init.len() {
                assert(init[i] == s[i]);
            }
        }
    }
}

impl Json {
    /// The first value at a key; nothing stands for `Null`.
    pub fn get(&self, key: &str) -> (r: Option<&Json>)
        ensures
            match r {
                Some(v) => v.model() == member(self.model(), key@),
                None => member(self.model(), key@) == Model::Null,
            },
    {
        match self {
            Json::Object(pairs) => {
                let ghost ps = pair_models(pairs@);
                proof {
                    lemma_pair_models(pairs@);
                }
                let mut i: usize = 0;
                assert(ps.skip(0) =~= ps);
                while i < pairs.len()
                    invariant
                        i <= pairs.len(),
                        ps.len() == pairs.len(),
                        member_of(ps.skip(i as int), key@) == member_of(ps, key@),
                    decreases pairs.len() - i,
                {
                    assert(ps[i as int] == (pairs@[i as int].0@, pairs@[i as int].1.model()));
                    if text::same(pairs[i].0.as_str(), key) {
                        return Some(&pairs[i].1);
                    }
                    assert(ps.skip(i as int).drop_first() =~= ps.skip(i + 1));
                    i += 1;
                }
                None
            },
            _ => None,
        }
    }
}

/// What may be missing, `Null` where it is.
pub open spec fn model_of(v: Option<&Json>) -> Model {
    match v {
        Some(x) => x.model(),
        None => Model::Null,
    }
}

/// The value at a key of what may be missing.
pub fn get_in<'a>(v: Option<&'a Json>, key: &str) -> (r: Option<&'a Json>)
    ensures
        model_of(r) == member(model_of(v), key@),
{
    match v {
        Some(x) => x.get(key),
        None => None,
    }
}

/// The text of a model, if it is one.
pub open spec fn string_of(m: Model) -> Option<Seq<char>> {
    match m {
        Model::Str(s) => Some(s),
        _ => None,
    }
}

/// The number of a model as it is written, if it is one.
pub open spec fn number_of(m: Model) -> Option<Seq<char>> {
    match m {
        Model::Num(s) => Some(s),
        _ => None,
    }
}

/// The text of what may be missing.
pub fn as_string(v: Option<&Json>) -> (r: Option<String>)
    ensures
        text::opt(r) == string_of(model_of(v)),
{
    match v {
        Some(Json::Str(s)) => Some(s.clone()),
        _ => None,
    }
}

/// The number, as it is written, of what may be missing.
pub fn as_number(v: Option<&Json>) -> (r: Option<String>)
    ensures
        text::opt(r) == number_of(model_of(v)),
{
    match v {
        Some(Json::Num(s)) => Some(s.clone()),
        _ => None,
    }
}

// ── Laws ──

/// A text with its quotes and backslashes escaped.
pub open spec fn quoted(s: Seq<char>) -> Seq<char>
    decreases s.len(),
{
    if s.len() == 0 {
        Seq::empty()
    } else if s.last() == '"' || s.last() == '\\' {
        quoted(s.drop_last()).push('\\').push(s.last())
    } else {
        quoted(s.drop_last()).push(s.last())
    }
}

proof fn lemma_quoted_split(s: Seq<char>, n: int)
    requires
        0 <= n < s.len(),
    ensures
        quoted(s.take(n + 1)) == quoted(s.take(n)) + quoted(seq![s[n]]),
        quoted(s.take(n + 1)).is_prefix_of(quoted(s)),
    decreases s.len() - n,
{
    reveal_with_fuel(quoted, 2);
    let one = s.take(n + 1);
    assert(one.drop_last() =~= s.take(n));
    assert(one.last() == s[n]);
    assert(seq![s[n]].drop_last() =~= Seq::<char>::empty());
    assert(quoted(one) =~= quoted(s.take(n)) + quoted(seq![s[n]]));
    if n + 1 < s.len() {
        lemma_quoted_split(s, n + 1);
        assert(s.take(n + 2).drop_last() =~= one);
        let longer = quoted(s.take(n + 2));
        assert(quoted(one) =~= longer.subrange(0, quoted(one).len() as int));
        assert(quoted(one) =~= quoted(s).subrange(0, quoted(one).len() as int));
    } else {
        assert(one =~= s);
        assert(quoted(s) =~= quoted(s).subrange(0, quoted(s).len() as int));
    }
}

proof fn lemma_string_rest(cs: Seq<char>, from: int, s: Seq<char>, n: int)
    requires
        0 <= from,
        0 <= n <= s.len(),
        cs.len() >= from + quoted(s).len() as int + 1,
        cs.subrange(from, from + quoted(s).len() as int) == quoted(s),
        cs[from + quoted(s).len() as int] == '"',
    ensures
        string_rest(cs, from + quoted(s.take(n)).len() as int, s.take(n)) == Ok::<
            (Seq<char>, int),
            Seq<char>,
        >((s, from + quoted(s).len() as int + 1)),
    decreases s.len() - n,
{
    let q = quoted(s);
    let at = quoted(s.take(n)).len() as int;
    if n == s.len() {
        assert(s.take(n) =~= s);
    } else {
        lemma_quoted_split(s, n);
        lemma_string_rest(cs, from, s, n + 1);
        reveal_with_fuel(quoted, 2);
        let c = s[n];
        let step = quoted(seq![c]);
        assert(seq![c].drop_last() =~= Seq::<char>::empty());
        let next = quoted(s.take(n + 1));
        assert(next.len() == quoted(s.take(n)).len() + step.len());
        assert(next =~= q.subrange(0, next.len() as int));
        assert(s.take(n + 1) =~= s.take(n).push(c));
        let here = cs.subrange(from, from + q.len() as int);
        if c == '"' || c == '\\' {
            assert(step =~= seq!['\\', c]);
            assert(next[at] == '\\' && next[at + 1] == c);
            assert(q[at] == '\\' && q[at + 1] == c);
            assert(here[at] == cs[from + at]);
            assert(here[at + 1] == cs[from + at + 1]);
        } else {
            assert(step =~= seq![c]);
            assert(next[at] == c);
            assert(q[at] == c);
            assert(here[at] == cs[from + at]);
        }
    }
}

/// A string is read back from its escaped form, whatever follows it.
pub proof fn law_string_reads_back(s: Seq<char>, behind: Seq<char>)
    ensures
        value_at(seq!['"'] + quoted(s) + seq!['"'] + behind, 0) == Ok::<(Model, int), Seq<char>>(
            (Model::Str(s), quoted(s).len() as int + 2),
        ),
{
    let cs = seq!['"'] + quoted(s) + seq!['"'] + behind;
    assert(cs.subrange(1, quoted(s).len() as int + 1) =~= quoted(s));
    assert(cs[0] == '"');
    assert(s.take(0) =~= Seq::<char>::empty());
    lemma_string_rest(cs, 1, s, 0);
}

/// What an object has at a key is the value of the first pair with that key.
pub proof fn law_first_member_counts(pairs: Seq<(Seq<char>, Model)>, key: Seq<char>, i: int)
    requires
        0 <= i <= pairs.len(),
        forall|j: int| 0 <= j < i ==> (#[trigger] pairs[j]).0 != key,
    ensures
        i < pairs.len() && pairs[i].0 == key ==> member(Model::Object(pairs), key) == pairs[i].1,
        i == pairs.len() ==> member(Model::Object(pairs), key) == Model::Null,
    decreases pairs.len(),
{
    if i > 0 {
        let rest = pairs.drop_first();
        assert forall|j: int| 0 <= j < i - 1 implies (#[trigger] rest[j]).0 != key by {
            assert(rest[j] == pairs[j + 1]);
        }
        assert(pairs[0].0 != key);
        law_first_member_counts(rest, key, i - 1);
        if i < pairs.len() {
            assert(rest[i - 1] == pairs[i]);
        }
    }
}

/// An escape in a string stands for one character, and reading goes on behind it.
pub proof fn law_escapes(cs: Seq<char>, i: int, acc: Seq<char>)
    requires
        0 <= i,
        i + 1 < cs.len(),
        cs[i] == '\\',
    ensures
        cs[i + 1] == 'n' ==> string_rest(cs, i, acc) == string_rest(cs, i + 2, acc.push('\n')),
        cs[i + 1] == 'r' ==> string_rest(cs, i, acc) == string_rest(cs, i + 2, acc.push('\r')),
        cs[i + 1] == 't' ==> string_rest(cs, i, acc) == string_rest(cs, i + 2, acc.push('\t')),
        cs[i + 1] == 'b' ==> string_rest(cs, i, acc) == string_rest(cs, i + 2, acc.push('\u{8}')),
        cs[i + 1] == 'f' ==> string_rest(cs, i, acc) == string_rest(cs, i + 2, acc.push('\u{c}')),
        cs[i + 1] == '/' || cs[i + 1] == '"' || cs[i + 1] == '\\' ==> string_rest(cs, i, acc)
            == string_rest(cs, i + 2, acc.push(cs[i + 1])),
{
}

/// An escape of four hexadecimal digits stands for the character of that code, and for nothing
/// where the code is that of half a pair.
pub proof fn law_unicode_escapes(cs: Seq<char>, i: int, acc: Seq<char>, code: nat)
    requires
        0 <= i,
        i + 5 < cs.len(),
        cs[i] == '\\',
        cs[i + 1] == 'u',
        forall|k: int| i + 2 <= k < i + 6 ==> hex_digit(#[trigger] cs[k]) is Some,
        code == 4096 * hex_digit(cs[i + 2]).unwrap() + 256 * hex_digit(cs[i + 3]).unwrap() + 16
            * hex_digit(cs[i + 4]).unwrap() + hex_digit(cs[i + 5]).unwrap(),
    ensures
        0xD800 <= code <= 0xDFFF ==> string_rest(cs, i, acc) == string_rest(cs, i + 6, acc),
        code < 0xD800 || code > 0xDFFF ==> string_rest(cs, i, acc) == string_rest(
            cs,
            i + 6,
            acc.push(code as char),
        ),
{
    reveal_with_fuel(offset, 6);
    let four = cs.subrange(i + 2, i + 6);
    assert(hex_digit(cs[i + 2]) is Some && hex_digit(cs[i + 3]) is Some && hex_digit(cs[i + 4])
        is Some && hex_digit(cs[i + 5]) is Some);
    assert(offset(cs, i + 3) == offset(cs, i + 2) + 1);
    assert(offset(cs, i + 4) == offset(cs, i + 3) + 1);
    assert(offset(cs, i + 5) == offset(cs, i + 4) + 1);
    assert(offset(cs, i + 6) == offset(cs, i + 5) + 1);
    lemma_offset_grows(cs, i + 6, cs.len() as int);
    assert(four_bytes(cs, i + 2) == Some(4int));
    reveal_with_fuel(hex_run, 5);
    assert(four.drop_last() =~= cs.subrange(i + 2, i + 5));
    assert(four.drop_last().drop_last() =~= cs.subrange(i + 2, i + 4));
    assert(four.drop_last().drop_last().drop_last() =~= cs.subrange(i + 2, i + 3));
    assert(four.drop_last().drop_last().drop_last().drop_last() =~= Seq::<char>::empty());
    assert(four[0] == cs[i + 2]);
    assert(hex_run(four) == Some(code));
    assert(hex_code(four) == Some(code));
    assert(past(i + 6, i) == i + 6);
}

/// The digits of a hexadecimal number count from zero to fifteen, in either case.
pub proof fn law_hex_digits(c: char)
    ensures
        '0' <= c <= '9' ==> hex_digit(c) == Some((c as int - '0' as int) as nat),
        'a' <= c <= 'f' ==> hex_digit(c) == Some((c as int - 'a' as int + 10) as nat),
        'A' <= c <= 'F' ==> hex_digit(c) == Some((c as int - 'A' as int + 10) as nat),
        !('0' <= c <= '9') && !('a' <= c <= 'f') && !('A' <= c <= 'F') ==> hex_digit(c) is None,
{
}

// ── Reading back what is written ──

/// A value written down without blanks.
pub open spec fn written(m: Model) -> Seq<char>
    decreases m, 0int,
{
    match m {
        Model::Null => "null"@,
        Model::Bool(b) => if b {
            "true"@
        } else {
            "false"@
        },
        Model::Num(s) => s,
        Model::Str(s) => seq!['"'] + quoted(s) + seq!['"'],
        Model::Array(a) => seq!['['] + items_written(a, 0) + seq![']'],
        Model::Object(p) => seq!['{'] + pairs_written(p, 0) + seq!['}'],
    }
}

/// The items of an array from place `n` on, a comma before each but the first of all.
pub open spec fn items_written(a: Seq<Model>, n: nat) -> Seq<char>
    decreases a, a.len() - n,
{
    if n >= a.len() {
        Seq::empty()
    } else if n > 0 {
        seq![','] + written(a[n as int]) + items_written(a, n + 1)
    } else {
        written(a[n as int]) + items_written(a, n + 1)
    }
}

/// The pairs of an object from place `n` on, a comma before each but the first of all.
pub open spec fn pairs_written(p: Seq<(Seq<char>, Model)>, n: nat) -> Seq<char>
    decreases p, p.len() - n,
{
    if n >= p.len() {
        Seq::empty()
    } else if n > 0 {
        seq![','] + pair_written(p[n as int].0, written(p[n as int].1)) + pairs_written(p, n + 1)
    } else {
        pair_written(p[n as int].0, written(p[n as int].1)) + pairs_written(p, n + 1)
    }
}

/// A key and what is written of its value.
pub open spec fn pair_written(key: Seq<char>, value: Seq<char>) -> Seq<char> {
    seq!['"'] + quoted(key) + seq!['"', ':'] + value
}

/// Whether all numbers in a value are written with digits alone.
pub open spec fn has_whole_numbers(m: Model) -> bool
    decreases m, 0int,
{
    match m {
        Model::Num(s) => text::all_digits(s),
        Model::Array(a) => items_whole(a, 0),
        Model::Object(p) => pairs_whole(p, 0),
        _ => true,
    }
}

pub open spec fn items_whole(a: Seq<Model>, n: nat) -> bool
    decreases a, a.len() - n,
{
    n < a.len() ==> has_whole_numbers(a[n as int]) && items_whole(a, n + 1)
}

pub open spec fn pairs_whole(p: Seq<(Seq<char>, Model)>, n: nat) -> bool
    decreases p, p.len() - n,
{
    n < p.len() ==> has_whole_numbers(p[n as int].1) && pairs_whole(p, n + 1)
}

/// Whether a number that ends before place `k` goes no further.
spec fn stops(cs: Seq<char>, k: int) -> bool {
    k >= cs.len() || !(text::is_digit(cs[k]) || cs[k] == '.' || cs[k] == 'e' || cs[k] == 'E')
}

proof fn lemma_written_ends(m: Model)
    requires
        has_whole_numbers(m),
    ensures
        written(m).len() > 0,
        !text::is_space(written(m)[0]) && !is_blank(written(m)[0]),
        !text::is_space(written(m).last()),
{
    reveal_strlit("null");
    reveal_strlit("true");
    reveal_strlit("false");
    assert("null"@.len() == 4 && "true"@.len() == 4 && "false"@.len() == 5);
    assert("null"@[0] == 'n' && "null"@[3] == 'l' && "true"@[0] == 't' && "true"@[3] == 'e'
        && "false"@[0] == 'f' && "false"@[4] == 'e');
    if let Model::Num(s) = m {
        assert(text::is_digit(s[0]) && text::is_digit(s[s.len() - 1]));
    }
}

proof fn lemma_digits_end(cs: Seq<char>, i: int, e: int)
    requires
        0 <= i <= e <= cs.len(),
        forall|k: int| i <= k < e ==> text::is_digit(#[trigger] cs[k]),
        e < cs.len() ==> !text::is_digit(cs[e]),
    ensures
        digits_end(cs, i) == e,
    decreases e - i,
{
    if i < e {
        assert(text::is_digit(cs[i]));
        lemma_digits_end(cs, i + 1, e);
    }
}

/// What is written of a value that holds no other is read back.
proof fn lemma_simple_reads(cs: Seq<char>, i: int, m: Model)
    requires
        has_whole_numbers(m),
        !(m is Array),
        !(m is Object),
        0 <= i,
        i + written(m).len() <= cs.len(),
        cs.subrange(i, i + written(m).len() as int) == written(m),
        stops(cs, i + written(m).len()),
    ensures
        value_at(cs, i) == Ok::<(Model, int), Seq<char>>((m, i + written(m).len() as int)),
{
    let w = written(m);
    let e = i + w.len() as int;
    let here = cs.subrange(i, e);
    lemma_written_ends(m);
    assert forall|k: int| 0 <= k < w.len() implies cs[i + k] == #[trigger] w[k] by {
        assert(here[k] == cs[i + k]);
    }
    assert(cs[i + 0] == w[0]);
    assert(blank_end(cs, i) == i);
    match m {
        Model::Null => {
            reveal_strlit("null");
            assert(w[0] == 'n' && w.len() == 4);
            assert(text::occurs_at(cs, "null"@, i));
        },
        Model::Bool(b) => {
            reveal_strlit("true");
            reveal_strlit("false");
            assert("true"@.len() == 4 && "false"@.len() == 5);
            if b {
                assert(w[0] == 't');
                assert(text::occurs_at(cs, "true"@, i));
            } else {
                assert(w[0] == 'f');
                assert(text::occurs_at(cs, "false"@, i));
                if text::occurs_at(cs, "true"@, i) {
                    assert(cs.subrange(i, i + 4)[0] == "true"@[0]);
                }
            }
        },
        Model::Num(s) => {
            assert forall|k: int| i <= k < e implies text::is_digit(#[trigger] cs[k]) by {
                assert(w[k - i] == cs[i + (k - i)]);
            }
            lemma_digits_end(cs, i, e);
            assert(text::is_digit(w[0]));
            assert(number_marks(cs, i) == (i, e, e, e, e));
        },
        Model::Str(s) => {
            assert(w[0] == '"');
            assert(cs.subrange(i + 1, i + 1 + quoted(s).len()) =~= quoted(s)) by {
                assert forall|k: int| 0 <= k < quoted(s).len() implies cs[i + 1 + k] == quoted(
                    s,
                )[k] by {
                    assert(w[1 + k] == quoted(s)[k]);
                    assert(cs[i + (1 + k)] == w[1 + k]);
                }
            }
            assert(w[w.len() - 1] == '"');
            assert(cs[i + (w.len() - 1)] == w[w.len() - 1]);
            assert(s.take(0) =~= Seq::<char>::empty());
            lemma_string_rest(cs, i + 1, s, 0);
        },
        _ => {},
    }
}

/// Where a text without its first character stands from the next place on.
proof fn lemma_behind_the_first(cs: Seq<char>, i: int, first: char, rest: Seq<char>)
    requires
        0 <= i,
        i + 1 + rest.len() <= cs.len(),
        cs.subrange(i, i + 1 + rest.len() as int) == seq![first] + rest,
    ensures
        cs[i] == first,
        cs.subrange(i + 1, i + 1 + rest.len() as int) == rest,
        rest.len() > 0 ==> cs[i + 1] == rest[0],
{
    let here = cs.subrange(i, i + 1 + rest.len() as int);
    let all = seq![first] + rest;
    assert(here[0] == cs[i] && all[0] == first);
    assert forall|k: int| 0 <= k < rest.len() implies cs[i + 1 + k] == rest[k] by {
        assert(here[1 + k] == cs[i + (1 + k)]);
        assert(all[1 + k] == rest[k]);
    }
    assert(cs.subrange(i + 1, i + 1 + rest.len() as int) =~= rest);
}

proof fn lemma_array_reads(cs: Seq<char>, i: int, a: Seq<Model>)
    requires
        items_whole(a, 0),
        0 <= i,
        i + written(Model::Array(a)).len() <= cs.len(),
        cs.subrange(i, i + written(Model::Array(a)).len() as int) == written(Model::Array(a)),
    ensures
        value_at(cs, i) == Ok::<(Model, int), Seq<char>>(
            (Model::Array(a), i + written(Model::Array(a)).len() as int),
        ),
    decreases a, a.len() + 1,
{
    let w = written(Model::Array(a));
    if a.len() == 0 {
        assert(items_written(a, 0) =~= Seq::empty());
        assert(w =~= seq!['['] + seq![']']);
        lemma_behind_the_first(cs, i, '[', seq![']']);
        assert(a =~= Seq::empty());
        assert(blank_end(cs, i) == i);
        assert(blank_end(cs, i + 1) == i + 1);
    } else {
        let first = written(a[0]);
        let rest = items_written(a, 1);
        let tail = first + rest + seq![']'];
        assert(items_written(a, 0) == first + rest);
        assert(w =~= seq!['['] + tail);
        lemma_behind_the_first(cs, i, '[', tail);
        lemma_written_ends(a[0]);
        lemma_no_value_starts_so(a[0]);
        assert(tail[0] == first[0]);
        assert(blank_end(cs, i) == i);
        assert(blank_end(cs, i + 1) == i + 1);
        assert(a.take(0) =~= Seq::empty());
        lemma_items_read(cs, i + 1, a, 0);
    }
}

proof fn lemma_object_reads(cs: Seq<char>, i: int, p: Seq<(Seq<char>, Model)>)
    requires
        pairs_whole(p, 0),
        0 <= i,
        i + written(Model::Object(p)).len() <= cs.len(),
        cs.subrange(i, i + written(Model::Object(p)).len() as int) == written(Model::Object(p)),
    ensures
        value_at(cs, i) == Ok::<(Model, int), Seq<char>>(
            (Model::Object(p), i + written(Model::Object(p)).len() as int),
        ),
    decreases p, p.len() + 1,
{
    let w = written(Model::Object(p));
    if p.len() == 0 {
        assert(pairs_written(p, 0) =~= Seq::empty());
        assert(w =~= seq!['{'] + seq!['}']);
        lemma_behind_the_first(cs, i, '{', seq!['}']);
        assert(p =~= Seq::empty());
        assert(blank_end(cs, i) == i);
        assert(blank_end(cs, i + 1) == i + 1);
    } else {
        let first = pair_written(p[0].0, written(p[0].1));
        let rest = pairs_written(p, 1);
        let tail = first + rest + seq!['}'];
        assert(pairs_written(p, 0) == first + rest);
        assert(w =~= seq!['{'] + tail);
        lemma_behind_the_first(cs, i, '{', tail);
        assert(first[0] == '"');
        assert(tail[0] == first[0]);
        assert(blank_end(cs, i) == i);
        assert(blank_end(cs, i + 1) == i + 1);
        assert(p.take(0) =~= Seq::empty());
        lemma_pairs_read(cs, i + 1, p, 0);
    }
}

proof fn lemma_written_reads(cs: Seq<char>, i: int, m: Model)
    requires
        has_whole_numbers(m),
        0 <= i,
        i + written(m).len() <= cs.len(),
        cs.subrange(i, i + written(m).len() as int) == written(m),
        stops(cs, i + written(m).len()),
    ensures
        value_at(cs, i) == Ok::<(Model, int), Seq<char>>((m, i + written(m).len() as int)),
    decreases m, 0int,
{
    match m {
        Model::Array(a) => {
            lemma_array_reads(cs, i, a);
        },
        Model::Object(p) => {
            lemma_object_reads(cs, i, p);
        },
        _ => {
            lemma_simple_reads(cs, i, m);
        },
    }
}

proof fn lemma_no_value_starts_so(m: Model)
    requires
        has_whole_numbers(m),
    ensures
        written(m)[0] != ']',
{
    lemma_written_ends(m);
    reveal_strlit("null");
    reveal_strlit("true");
    reveal_strlit("false");
    if let Model::Num(s) = m {
        assert(text::is_digit(s[0]));
    }
}

proof fn lemma_items_read(cs: Seq<char>, i: int, a: Seq<Model>, n: nat)
    requires
        n < a.len(),
        items_whole(a, n),
        0 <= i,
        i + written(a[n as int]).len() + items_written(a, n + 1).len() + 1 <= cs.len(),
        cs.subrange(
            i,
            i + written(a[n as int]).len() + items_written(a, n + 1).len() + 1,
        ) == written(a[n as int]) + items_written(a, n + 1) + seq![']'],
    ensures
        items_at(cs, i, a.take(n as int)) == Ok::<(Model, int), Seq<char>>(
            (
                Model::Array(a),
                i + written(a[n as int]).len() + items_written(a, n + 1).len() + 1,
            ),
        ),
    decreases a, a.len() - n,
{
    let v = a[n as int];
    let w = written(v);
    let rest = items_written(a, n + 1);
    let all = w + rest + seq![']'];
    let j = i + w.len() as int;
    assert forall|k: int| 0 <= k < all.len() implies cs[i + k] == #[trigger] all[k] by {
        assert(cs.subrange(i, i + all.len() as int)[k] == cs[i + k]);
    }
    assert(cs.subrange(i, j) =~= w) by {
        assert forall|k: int| 0 <= k < w.len() implies cs[i + k] == w[k] by {
            assert(all[k] == w[k]);
        }
    }
    lemma_written_ends(v);
    assert(a.take(n as int).push(v) =~= a.take(n as int + 1));
    if n + 1 < a.len() {
        let next = written(a[n as int + 1]);
        let behind = items_written(a, n + 2);
        assert(rest == seq![','] + next + behind);
        assert(all[w.len() as int] == ',');
        assert(cs[i + w.len() as int] == ',');
        assert(blank_end(cs, j) == j);
        lemma_written_reads(cs, i, v);
        assert(items_whole(a, n + 1));
        lemma_written_ends(a[n as int + 1]);
        let tail = next + behind + seq![']'];
        assert forall|k: int| 0 <= k < tail.len() implies cs[j + 1 + k] == #[trigger] tail[k] by {
            assert(all[w.len() + 1 + k] == tail[k]);
            assert(cs[i + (w.len() + 1 + k)] == all[w.len() + 1 + k]);
        }
        assert(cs[j + 1 + 0] == tail[0]);
        assert(tail[0] == next[0]);
        assert(blank_end(cs, j + 1) == j + 1);
        assert(cs.subrange(j + 1, j + 1 + tail.len() as int) =~= tail);
        lemma_items_read(cs, j + 1, a, n + 1);
    } else {
        assert(rest =~= Seq::empty());
        assert(all[w.len() as int] == ']');
        assert(cs[i + w.len() as int] == ']');
        assert(blank_end(cs, j) == j);
        lemma_written_reads(cs, i, v);
        assert(a.take(n as int + 1) =~= a);
    }
}

proof fn lemma_pairs_read(cs: Seq<char>, i: int, p: Seq<(Seq<char>, Model)>, n: nat)
    requires
        n < p.len(),
        pairs_whole(p, n),
        0 <= i,
        i + pair_written(p[n as int].0, written(p[n as int].1)).len() + pairs_written(
            p,
            n + 1,
        ).len() + 1 <= cs.len(),
        cs.subrange(
            i,
            i + pair_written(p[n as int].0, written(p[n as int].1)).len() + pairs_written(
                p,
                n + 1,
            ).len() + 1,
        ) == pair_written(p[n as int].0, written(p[n as int].1)) + pairs_written(p, n + 1)
            + seq!['}'],
    ensures
        pairs_at(cs, i, p.take(n as int)) == Ok::<(Model, int), Seq<char>>(
            (
                Model::Object(p),
                i + pair_written(p[n as int].0, written(p[n as int].1)).len() + pairs_written(
                    p,
                    n + 1,
                ).len() + 1,
            ),
        ),
    decreases p, p.len() - n,
{
    let key = p[n as int].0;
    let v = p[n as int].1;
    let q = quoted(key);
    let w = written(v);
    let pair = pair_written(key, w);
    let rest = pairs_written(p, n + 1);
    let all = pair + rest + seq!['}'];
    let from = i + q.len() as int + 3;
    let j = i + pair.len() as int;
    assert forall|k: int| 0 <= k < all.len() implies cs[i + k] == #[trigger] all[k] by {
        assert(cs.subrange(i, i + all.len() as int)[k] == cs[i + k]);
    }
    assert(all[0] == '"');
    assert(cs[i + 0] == '"');
    assert(blank_end(cs, i) == i);
    assert(cs.subrange(i + 1, i + 1 + q.len() as int) =~= q) by {
        assert forall|k: int| 0 <= k < q.len() implies cs[i + 1 + k] == q[k] by {
            assert(all[1 + k] == q[k]);
            assert(cs[i + (1 + k)] == all[1 + k]);
        }
    }
    assert(all[q.len() as int + 1] == '"' && all[q.len() as int + 2] == ':');
    assert(cs[i + (q.len() as int + 1)] == '"' && cs[i + (q.len() as int + 2)] == ':');
    assert(key.take(0) =~= Seq::<char>::empty());
    lemma_string_rest(cs, i + 1, key, 0);
    assert(blank_end(cs, i + q.len() as int + 2) == i + q.len() as int + 2);
    assert(cs.subrange(from, j) =~= w) by {
        assert forall|k: int| 0 <= k < w.len() implies cs[from + k] == w[k] by {
            assert(all[q.len() + 3 + k] == w[k]);
            assert(cs[i + (q.len() + 3 + k)] == all[q.len() + 3 + k]);
        }
    }
    lemma_written_ends(v);
    assert(p.take(n as int).push((key, v)) =~= p.take(n as int + 1));
    if n + 1 < p.len() {
        let next = pair_written(p[n as int + 1].0, written(p[n as int + 1].1));
        let behind = pairs_written(p, n + 2);
        assert(rest == seq![','] + next + behind);
        assert(all[pair.len() as int] == ',');
        assert(cs[i + pair.len() as int] == ',');
        assert(blank_end(cs, j) == j);
        lemma_written_reads(cs, from, v);
        let tail = next + behind + seq!['}'];
        assert forall|k: int| 0 <= k < tail.len() implies cs[j + 1 + k] == #[trigger] tail[k] by {
            assert(all[pair.len() + 1 + k] == tail[k]);
            assert(cs[i + (pair.len() + 1 + k)] == all[pair.len() + 1 + k]);
        }
        assert(cs.subrange(j + 1, j + 1 + tail.len() as int) =~= tail);
        lemma_pairs_read(cs, j + 1, p, n + 1);
    } else {
        assert(rest =~= Seq::empty());
        assert(all[pair.len() as int] == '}');
        assert(cs[i + pair.len() as int] == '}');
        assert(blank_end(cs, j) == j);
        lemma_written_reads(cs, from, v);
        assert(p.take(n as int + 1) =~= p);
    }
}

/// Every value whose numbers are whole is read back from what is written of it: nulls, flags,
/// numbers, texts, arrays and objects, however deep, with all their items and pairs in order.
pub proof fn law_json_reads_back(m: Model)
    requires
        has_whole_numbers(m),
    ensures
        parsed(written(m)) == Ok::<Model, Seq<char>>(m),
{
    let w = written(m);
    lemma_written_ends(m);
    assert(text::trim_start(w) == w);
    assert(text::trim_end(w) == w);
    assert(w.subrange(0, w.len() as int) =~= w);
    lemma_written_reads(w, 0, m);
}

} // verus!
