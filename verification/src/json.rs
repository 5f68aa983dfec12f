//! JSON values, their canonical text, and a parser for the line-delimited
//! JSON-RPC dialect the server speaks.
//!
//! `Json` is the executable tree; `JVal` is its mathematical model. The
//! serializer is specified exactly by `jtext`, and the parser exactly by
//! `p_val`: every executable function here is proved equal to its spec.
//! A number in the 64-bit integer range becomes an `Int`; any other number
//! (a fraction, an exponent form, an out-of-range integer) keeps its exact
//! source lexeme, so nothing is rounded and round trips are byte-identical.
use vstd::prelude::*;

verus! {

/// Mathematical model of a JSON value. A number that is not a 64-bit
/// integer — a fraction, an exponent form, or an integer out of range —
/// is carried as its exact lexeme.
pub enum JVal {
    Null,
    Bool(bool),
    Int(int),
    FracNum(Seq<char>),
    Str(Seq<char>),
    Arr(Seq<JVal>),
    Obj(Seq<(Seq<char>, JVal)>),
}

/// Executable JSON value.
#[derive(Debug)]
pub enum Json {
    Null,
    Bool(bool),
    Int(i64),
    FracNum(Vec<char>),
    Str(Vec<char>),
    Arr(Vec<Json>),
    Obj(Vec<(Vec<char>, Json)>),
}

pub open spec fn view_json(j: Json) -> JVal
    decreases j,
{
    match j {
        Json::Null => JVal::Null,
        Json::Bool(b) => JVal::Bool(b),
        Json::Int(i) => JVal::Int(i as int),
        Json::FracNum(s) => JVal::FracNum(s@),
        Json::Str(s) => JVal::Str(s@),
        Json::Arr(a) => JVal::Arr(view_json_seq(a@)),
        Json::Obj(m) => JVal::Obj(view_json_members(m@)),
    }
}

pub open spec fn view_json_seq(s: Seq<Json>) -> Seq<JVal>
    decreases s,
{
    if s.len() == 0 {
        Seq::empty()
    } else {
        view_json_seq(s.drop_last()).push(view_json(s.last()))
    }
}

pub open spec fn view_json_members(s: Seq<(Vec<char>, Json)>) -> Seq<(Seq<char>, JVal)>
    decreases s,
{
    if s.len() == 0 {
        Seq::empty()
    } else {
        view_json_members(s.drop_last()).push((s.last().0@, view_json(s.last().1)))
    }
}

impl View for Json {
    type V = JVal;

    open spec fn view(&self) -> JVal {
        view_json(*self)
    }
}

pub broadcast proof fn lemma_view_json_seq(s: Seq<Json>)
    ensures
        (#[trigger] view_json_seq(s)).len() == s.len(),
        forall|i: int| 0 <= i < s.len() ==> view_json_seq(s)[i] == view_json(#[trigger] s[i]),
    decreases s,
{
    if s.len() > 0 {
        lemma_view_json_seq(s.drop_last());
        assert forall|i: int| 0 <= i < s.len() implies view_json_seq(s)[i] == view_json(
            #[trigger] s[i],
        ) by {
            if i < s.len() - 1 {
                assert(s.drop_last()[i] == s[i]);
                assert(view_json_seq(s)[i] == view_json_seq(s.drop_last())[i]);
            }
        }
    }
}

pub broadcast proof fn lemma_view_json_members(s: Seq<(Vec<char>, Json)>)
    ensures
        (#[trigger] view_json_members(s)).len() == s.len(),
        forall|i: int|
            0 <= i < s.len() ==> view_json_members(s)[i] == ((#[trigger] s[i]).0@, view_json(
                s[i].1,
            )),
    decreases s,
{
    if s.len() > 0 {
        lemma_view_json_members(s.drop_last());
        assert forall|i: int|
            0 <= i < s.len() implies view_json_members(s)[i] == ((#[trigger] s[i]).0@, view_json(
            s[i].1,
        )) by {
            if i < s.len() - 1 {
                assert(s.drop_last()[i] == s[i]);
                assert(view_json_members(s)[i] == view_json_members(s.drop_last())[i]);
            }
        }
    }
}

/// Well-formed model values: every integer fits in 64 bits, and every kept
/// number lexeme is canonical — it scans as a number to its own end.
pub open spec fn wf_jval(v: JVal) -> bool
    decreases v,
{
    match v {
        JVal::Null => true,
        JVal::Bool(_) => true,
        JVal::Int(i) => i64::MIN <= i <= i64::MAX,
        JVal::FracNum(lex) => p_num(lex, 0) == Some((JVal::FracNum(lex), lex.len() as int)),
        JVal::Str(_) => true,
        JVal::Arr(a) => forall|i: int| 0 <= i < a.len() ==> wf_jval(#[trigger] a[i]),
        JVal::Obj(m) => forall|i: int| 0 <= i < m.len() ==> wf_jval((#[trigger] m[i]).1),
    }
}

// ---------------------------------------------------------------------------
// Canonical text of a value
// ---------------------------------------------------------------------------
pub open spec fn spec_hex_digit(n: int) -> char {
    if n == 0 {
        '0'
    } else if n == 1 {
        '1'
    } else if n == 2 {
        '2'
    } else if n == 3 {
        '3'
    } else if n == 4 {
        '4'
    } else if n == 5 {
        '5'
    } else if n == 6 {
        '6'
    } else if n == 7 {
        '7'
    } else if n == 8 {
        '8'
    } else if n == 9 {
        '9'
    } else if n == 10 {
        'a'
    } else if n == 11 {
        'b'
    } else if n == 12 {
        'c'
    } else if n == 13 {
        'd'
    } else if n == 14 {
        'e'
    } else {
        'f'
    }
}

/// How one character appears inside a quoted JSON string.
pub open spec fn esc_char(c: char) -> Seq<char> {
    if c == '"' {
        seq!['\\', '"']
    } else if c == '\\' {
        seq!['\\', '\\']
    } else if c == '\n' {
        seq!['\\', 'n']
    } else if c == '\r' {
        seq!['\\', 'r']
    } else if c == '\t' {
        seq!['\\', 't']
    } else if (c as u32) < 0x20 {
        seq!['\\', 'u', '0', '0', spec_hex_digit(((c as u32) / 16) as int), spec_hex_digit(
            ((c as u32) % 16) as int,
        )]
    } else {
        seq![c]
    }
}

pub open spec fn esc_seq(s: Seq<char>) -> Seq<char>
    decreases s,
{
    if s.len() == 0 {
        Seq::empty()
    } else {
        esc_char(s[0]) + esc_seq(s.drop_first())
    }
}

/// Decimal digits of a non-negative integer, most significant first.
pub open spec fn dec_digits(n: int) -> Seq<char>
    decreases n,
{
    if n < 10 {
        seq![spec_hex_digit(if n < 0 { 0 } else { n })]
    } else {
        dec_digits(n / 10) + seq![spec_hex_digit(n % 10)]
    }
}

pub open spec fn int_text(i: int) -> Seq<char> {
    if i < 0 {
        seq!['-'] + dec_digits(-i)
    } else {
        dec_digits(i)
    }
}

pub open spec fn str_text(s: Seq<char>) -> Seq<char> {
    seq!['"'] + esc_seq(s) + seq!['"']
}

/// Canonical text of a value: no whitespace, minimal escapes.
pub open spec fn jtext(v: JVal) -> Seq<char>
    decreases v, 1int,
{
    match v {
        JVal::Null => seq!['n', 'u', 'l', 'l'],
        JVal::Bool(b) => if b {
            seq!['t', 'r', 'u', 'e']
        } else {
            seq!['f', 'a', 'l', 's', 'e']
        },
        JVal::Int(i) => int_text(i),
        JVal::FracNum(lex) => lex,
        JVal::Str(s) => str_text(s),
        JVal::Arr(a) => seq!['['] + items_text(a) + seq![']'],
        JVal::Obj(m) => seq!['{'] + members_text(m) + seq!['}'],
    }
}

/// Comma-separated element texts, leftmost first.
pub open spec fn items_text(a: Seq<JVal>) -> Seq<char>
    decreases a, 0int,
{
    if a.len() == 0 {
        Seq::empty()
    } else if a.len() == 1 {
        jtext(a[0])
    } else {
        jtext(a[0]) + seq![','] + items_text(a.drop_first())
    }
}

pub open spec fn member_text(kv: (Seq<char>, JVal)) -> Seq<char>
    decreases kv, 0int,
{
    str_text(kv.0) + seq![':'] + jtext(kv.1)
}

pub open spec fn members_text(m: Seq<(Seq<char>, JVal)>) -> Seq<char>
    decreases m, 0int,
{
    if m.len() == 0 {
        Seq::empty()
    } else if m.len() == 1 {
        member_text(m[0])
    } else {
        member_text(m[0]) + seq![','] + members_text(m.drop_first())
    }
}

/// Appending one more element extends the comma-separated text on the right.
pub proof fn lemma_items_text_push(a: Seq<JVal>, v: JVal)
    ensures
        items_text(a.push(v)) == if a.len() == 0 {
            jtext(v)
        } else {
            items_text(a) + seq![','] + jtext(v)
        },
    decreases a.len(),
{
    if a.len() == 0 {
        assert(a.push(v)[0] == v);
        assert(a.push(v).len() == 1);
    } else {
        lemma_items_text_push(a.drop_first(), v);
        assert(a.push(v).drop_first() =~= a.drop_first().push(v));
        assert(a.push(v)[0] == a[0]);
        if a.len() == 1 {
            assert(items_text(a) == jtext(a[0]));
            assert(items_text(a.push(v)) == jtext(a[0]) + seq![','] + items_text(
                a.drop_first().push(v),
            ));
            assert(items_text(a.drop_first().push(v)) == jtext(v));
        } else {
            assert(items_text(a.push(v)) == jtext(a[0]) + seq![','] + items_text(
                a.drop_first().push(v),
            ));
            assert(items_text(a) + seq![','] + jtext(v) == jtext(a[0]) + seq![','] + (items_text(
                a.drop_first(),
            ) + seq![','] + jtext(v))) by {
                assert(items_text(a) == jtext(a[0]) + seq![','] + items_text(a.drop_first()));
                assert((jtext(a[0]) + seq![','] + items_text(a.drop_first())) + seq![','] + jtext(v)
                    =~= jtext(a[0]) + seq![','] + (items_text(a.drop_first()) + seq![','] + jtext(
                    v,
                )));
            }
        }
    }
}

pub proof fn lemma_members_text_push(m: Seq<(Seq<char>, JVal)>, kv: (Seq<char>, JVal))
    ensures
        members_text(m.push(kv)) == if m.len() == 0 {
            member_text(kv)
        } else {
            members_text(m) + seq![','] + member_text(kv)
        },
    decreases m.len(),
{
    if m.len() == 0 {
        assert(m.push(kv)[0] == kv);
        assert(m.push(kv).len() == 1);
    } else {
        lemma_members_text_push(m.drop_first(), kv);
        assert(m.push(kv).drop_first() =~= m.drop_first().push(kv));
        assert(m.push(kv)[0] == m[0]);
        if m.len() == 1 {
            assert(members_text(m.push(kv)) == member_text(m[0]) + seq![','] + members_text(
                m.drop_first().push(kv),
            ));
        } else {
            assert(members_text(m.push(kv)) == member_text(m[0]) + seq![','] + members_text(
                m.drop_first().push(kv),
            ));
            assert(members_text(m) + seq![','] + member_text(kv) == member_text(m[0]) + seq![','] + (
            members_text(m.drop_first()) + seq![','] + member_text(kv))) by {
                assert(members_text(m) == member_text(m[0]) + seq![','] + members_text(
                    m.drop_first(),
                ));
                assert((member_text(m[0]) + seq![','] + members_text(m.drop_first())) + seq![',']
                    + member_text(kv) =~= member_text(m[0]) + seq![','] + (members_text(
                    m.drop_first(),
                ) + seq![','] + member_text(kv)));
            }
        }
    }
}

// ---------------------------------------------------------------------------
// Executable serializer
// ---------------------------------------------------------------------------
/// Appending one more character extends the escaped text on the right.
pub proof fn lemma_esc_seq_push(s: Seq<char>, c: char)
    ensures
        esc_seq(s.push(c)) == esc_seq(s) + esc_char(c),
    decreases s.len(),
{
    if s.len() == 0 {
        let t = s.push(c);
        assert(t.len() == 1);
        assert(t[0] == c);
        assert(t.drop_first() =~= Seq::<char>::empty());
        assert(esc_seq(t.drop_first()) == Seq::<char>::empty());
        assert(esc_seq(t) == esc_char(t[0]) + esc_seq(t.drop_first()));
        assert(esc_char(c) + Seq::<char>::empty() =~= esc_char(c));
        assert(esc_seq(s) + esc_char(c) =~= esc_char(c));
    } else {
        lemma_esc_seq_push(s.drop_first(), c);
        assert(s.push(c)[0] == s[0]);
        assert(s.push(c).drop_first() =~= s.drop_first().push(c));
        assert(esc_char(s[0]) + (esc_seq(s.drop_first()) + esc_char(c)) =~= (esc_char(s[0])
            + esc_seq(s.drop_first())) + esc_char(c));
    }
}

fn hex_digit(n: u8) -> (c: char)
    requires
        n < 16,
    ensures
        c == spec_hex_digit(n as int),
{
    if n == 0 {
        '0'
    } else if n == 1 {
        '1'
    } else if n == 2 {
        '2'
    } else if n == 3 {
        '3'
    } else if n == 4 {
        '4'
    } else if n == 5 {
        '5'
    } else if n == 6 {
        '6'
    } else if n == 7 {
        '7'
    } else if n == 8 {
        '8'
    } else if n == 9 {
        '9'
    } else if n == 10 {
        'a'
    } else if n == 11 {
        'b'
    } else if n == 12 {
        'c'
    } else if n == 13 {
        'd'
    } else if n == 14 {
        'e'
    } else {
        'f'
    }
}

/// Append the in-string form of one character.
fn write_escaped_char(c: char, out: &mut Vec<char>)
    ensures
        final(out)@ == old(out)@ + esc_char(c),
{
    if c == '"' {
        out.push('\\');
        out.push('"');
        assert(out@ =~= old(out)@ + esc_char(c));
    } else if c == '\\' {
        out.push('\\');
        out.push('\\');
        assert(out@ =~= old(out)@ + esc_char(c));
    } else if c == '\n' {
        out.push('\\');
        out.push('n');
        assert(out@ =~= old(out)@ + esc_char(c));
    } else if c == '\r' {
        out.push('\\');
        out.push('r');
        assert(out@ =~= old(out)@ + esc_char(c));
    } else if c == '\t' {
        out.push('\\');
        out.push('t');
        assert(out@ =~= old(out)@ + esc_char(c));
    } else if (c as u32) < 0x20 {
        let code: u32 = c as u32;
        out.push('\\');
        out.push('u');
        out.push('0');
        out.push('0');
        out.push(hex_digit((code / 16) as u8));
        out.push(hex_digit((code % 16) as u8));
        assert(out@ =~= old(out)@ + esc_char(c));
    } else {
        out.push(c);
        assert(out@ =~= old(out)@ + esc_char(c));
    }
}

/// Append the quoted, escaped form of a string.
fn write_quoted(s: &Vec<char>, out: &mut Vec<char>)
    ensures
        final(out)@ == old(out)@ + str_text(s@),
{
    out.push('"');
    let n: usize = s.len();
    for i in 0..n
        invariant
            n == s.len(),
            out@ == old(out)@ + seq!['"'] + esc_seq(s@.take(i as int)),
    {
        let ghost pre = out@;
        write_escaped_char(s[i], out);
        proof {
            lemma_esc_seq_push(s@.take(i as int), s@[i as int]);
            assert(s@.take(i as int).push(s@[i as int]) =~= s@.take(i + 1));
            assert(out@ =~= old(out)@ + seq!['"'] + esc_seq(s@.take(i + 1)));
        }
    }
    out.push('"');
    proof {
        assert(s@.take(n as int) =~= s@);
        assert(out@ =~= old(out)@ + str_text(s@));
    }
}

/// Append the decimal digits of `n`, most significant first.
fn write_digits(n: u64, out: &mut Vec<char>)
    ensures
        final(out)@ == old(out)@ + dec_digits(n as int),
    decreases n,
{
    if n < 10 {
        out.push(hex_digit(n as u8));
        assert(out@ =~= old(out)@ + dec_digits(n as int));
    } else {
        write_digits(n / 10, out);
        out.push(hex_digit((n % 10) as u8));
        assert(out@ =~= old(out)@ + dec_digits(n as int));
    }
}

/// Append the decimal form of a 64-bit integer.
fn write_int(i: i64, out: &mut Vec<char>)
    ensures
        final(out)@ == old(out)@ + int_text(i as int),
{
    if i < 0 {
        out.push('-');
        let m: u64 = if i == i64::MIN {
            9223372036854775808u64
        } else {
            (-i) as u64
        };
        assert(m as int == -(i as int));
        write_digits(m, out);
        assert(out@ =~= old(out)@ + int_text(i as int));
    } else {
        write_digits(i as u64, out);
    }
}

/// Append the canonical text of a value.
pub fn write_json(j: &Json, out: &mut Vec<char>)
    ensures
        final(out)@ == old(out)@ + jtext(j@),
    decreases *j,
{
    match j {
        Json::Null => {
            out.push('n');
            out.push('u');
            out.push('l');
            out.push('l');
            assert(out@ =~= old(out)@ + jtext(j@));
        },
        Json::Bool(b) => {
            if *b {
                out.push('t');
                out.push('r');
                out.push('u');
                out.push('e');
            } else {
                out.push('f');
                out.push('a');
                out.push('l');
                out.push('s');
                out.push('e');
            }
            assert(out@ =~= old(out)@ + jtext(j@));
        },
        Json::Int(i) => {
            write_int(*i, out);
        },
        Json::FracNum(lex) => {
            let n: usize = lex.len();
            let mut k: usize = 0;
            while k < n
                invariant
                    0 <= k <= n,
                    n == lex@.len(),
                    out@ == old(out)@ + lex@.take(k as int),
                decreases n - k,
            {
                out.push(lex[k]);
                proof {
                    assert(out@ =~= old(out)@ + lex@.take(k + 1));
                }
                k = k + 1;
            }
            proof {
                assert(lex@.take(n as int) =~= lex@);
                assert(out@ =~= old(out)@ + jtext(j@));
            }
        },
        Json::Str(s) => {
            write_quoted(s, out);
        },
        Json::Arr(a) => {
            out.push('[');
            write_items(a, out);
            out.push(']');
            assert(out@ =~= old(out)@ + jtext(j@));
        },
        Json::Obj(m) => {
            out.push('{');
            write_members(m, out);
            out.push('}');
            assert(out@ =~= old(out)@ + jtext(j@));
        },
    }
}

/// Append the comma-separated element texts of an array.
fn write_items(a: &Vec<Json>, out: &mut Vec<char>)
    ensures
        final(out)@ == old(out)@ + items_text(view_json_seq(a@)),
    decreases *a,
{
    let n: usize = a.len();
    proof {
        lemma_view_json_seq(a@);
    }
    for i in 0..n
        invariant
            n == a.len(),
            view_json_seq(a@).len() == n,
            forall|k: int| 0 <= k < n ==> view_json_seq(a@)[k] == view_json(#[trigger] a@[k]),
            out@ == old(out)@ + items_text(view_json_seq(a@).take(i as int)),
    {
        if i > 0 {
            out.push(',');
        }
        write_json(&a[i], out);
        proof {
            lemma_items_text_push(view_json_seq(a@).take(i as int), a@[i as int]@);
            assert(view_json_seq(a@).take(i as int).push(a@[i as int]@) =~= view_json_seq(
                a@,
            ).take(i + 1));
            assert(out@ =~= old(out)@ + items_text(view_json_seq(a@).take(i + 1)));
        }
    }
    proof {
        assert(view_json_seq(a@).take(n as int) =~= view_json_seq(a@));
        assert(out@ =~= old(out)@ + items_text(view_json_seq(a@)));
    }
}

/// Append the comma-separated member texts of an object.
fn write_members(m: &Vec<(Vec<char>, Json)>, out: &mut Vec<char>)
    ensures
        final(out)@ == old(out)@ + members_text(view_json_members(m@)),
    decreases *m,
{
    let n: usize = m.len();
    proof {
        lemma_view_json_members(m@);
    }
    for i in 0..n
        invariant
            n == m.len(),
            view_json_members(m@).len() == n,
            forall|k: int|
                0 <= k < n ==> view_json_members(m@)[k] == ((#[trigger] m@[k]).0@, view_json(
                    m@[k].1,
                )),
            out@ == old(out)@ + members_text(view_json_members(m@).take(i as int)),
    {
        if i > 0 {
            out.push(',');
        }
        write_quoted(&m[i].0, out);
        out.push(':');
        write_json(&m[i].1, out);
        proof {
            lemma_members_text_push(
                view_json_members(m@).take(i as int),
                (m@[i as int].0@, view_json(m@[i as int].1)),
            );
            assert(view_json_members(m@).take(i as int).push(
                (m@[i as int].0@, view_json(m@[i as int].1)),
            ) =~= view_json_members(m@).take(i + 1));
            assert(out@ =~= old(out)@ + members_text(view_json_members(m@).take(i + 1)));
        }
    }
    proof {
        assert(view_json_members(m@).take(n as int) =~= view_json_members(m@));
        assert(out@ =~= old(out)@ + members_text(view_json_members(m@)));
    }
}

impl Json {
    /// The canonical text of this value, as a character vector.
    pub fn to_chars(&self) -> (out: Vec<char>)
        ensures
            out@ == jtext(self@),
    {
        let mut out: Vec<char> = Vec::new();
        write_json(self, &mut out);
        assert(out@ =~= jtext(self@));
        out
    }
}

// ---------------------------------------------------------------------------
// The grammar: a specification-level parser
// ---------------------------------------------------------------------------
pub open spec fn is_ws(c: char) -> bool {
    c == ' ' || c == '\t' || c == '\n' || c == '\r'
}

/// First index at or after `i` that does not hold whitespace.
pub open spec fn skip_ws(s: Seq<char>, i: int) -> int
    decreases s.len() - i,
{
    if 0 <= i && i < s.len() && is_ws(s[i]) {
        skip_ws(s, i + 1)
    } else {
        i
    }
}

pub proof fn lemma_skip_ws_bounds(s: Seq<char>, i: int)
    requires
        0 <= i <= s.len(),
    ensures
        i <= skip_ws(s, i) <= s.len(),
    decreases s.len() - i,
{
    if i < s.len() && is_ws(s[i]) {
        lemma_skip_ws_bounds(s, i + 1);
    }
}

pub open spec fn is_digit(c: char) -> bool {
    48 <= c as u32 <= 57
}

pub open spec fn match_lit(s: Seq<char>, i: int, lit: Seq<char>) -> bool {
    0 <= i && i + lit.len() <= s.len() && s.subrange(i, i + lit.len()) == lit
}

/// Value of a hexadecimal digit, or -1.
pub open spec fn hex_val(c: char) -> int {
    if 48 <= c as u32 <= 57 {
        c as u32 - 48
    } else if 97 <= c as u32 <= 102 {
        c as u32 - 87
    } else if 65 <= c as u32 <= 70 {
        c as u32 - 55
    } else {
        -1
    }
}

/// Value of the four hexadecimal digits at `i`, or -1.
pub open spec fn hex4(s: Seq<char>, i: int) -> int {
    let h0 = hex_val(s[i]);
    let h1 = hex_val(s[i + 1]);
    let h2 = hex_val(s[i + 2]);
    let h3 = hex_val(s[i + 3]);
    if h0 >= 0 && h1 >= 0 && h2 >= 0 && h3 >= 0 {
        h0 * 4096 + h1 * 256 + h2 * 16 + h3
    } else {
        -1
    }
}

/// Unicode scalar values: what a `char` may hold.
pub open spec fn is_scalar_value(h: int) -> bool {
    (0 <= h < 0xD800) || (0xE000 <= h <= 0x10FFFF)
}

/// What a single-character escape stands for.
pub open spec fn esc_code(e: char) -> Option<char> {
    if e == '"' {
        Some('"')
    } else if e == '\\' {
        Some('\\')
    } else if e == '/' {
        Some('/')
    } else if e == 'b' {
        Some('\u{0008}')
    } else if e == 'f' {
        Some('\u{000C}')
    } else if e == 'n' {
        Some('\n')
    } else if e == 'r' {
        Some('\r')
    } else if e == 't' {
        Some('\t')
    } else {
        None
    }
}

/// String contents from `i` (just past the opening quote) to the closing
/// quote; yields the decoded characters and the index past the quote.
pub open spec fn p_str(s: Seq<char>, i: int) -> Option<(Seq<char>, int)>
    decreases s.len() - i,
{
    if i < 0 || i >= s.len() {
        None
    } else {
        let c = s[i];
        if c == '"' {
            Some((Seq::empty(), i + 1))
        } else if c == '\\' {
            if s.len() - i >= 2 {
                let e = s[i + 1];
                if e == 'u' {
                    if s.len() - i >= 6 {
                        let h = hex4(s, i + 2);
                        if h >= 0 && is_scalar_value(h) {
                            match p_str(s, i + 6) {
                                Some((rest, j)) => Some((seq![(h as u32) as char] + rest, j)),
                                None => None,
                            }
                        } else if 0xD800 <= h && h <= 0xDBFF {
                            // a high surrogate escape must pair with a low one;
                            // together they name one supplementary character
                            if s.len() - i >= 12 && s[i + 6] == '\\' && s[i + 7] == 'u' {
                                let l = hex4(s, i + 8);
                                if 0xDC00 <= l && l <= 0xDFFF {
                                    let cp = 0x10000 + (h - 0xD800) * 0x400 + (l - 0xDC00);
                                    match p_str(s, i + 12) {
                                        Some((rest, j)) => Some(
                                            (seq![(cp as u32) as char] + rest, j),
                                        ),
                                        None => None,
                                    }
                                } else {
                                    None
                                }
                            } else {
                                None
                            }
                        } else {
                            None
                        }
                    } else {
                        None
                    }
                } else {
                    match esc_code(e) {
                        Some(d) => match p_str(s, i + 2) {
                            Some((rest, j)) => Some((seq![d] + rest, j)),
                            None => None,
                        },
                        None => None,
                    }
                }
            } else {
                None
            }
        } else if (c as u32) < 0x20 {
            None
        } else {
            match p_str(s, i + 1) {
                Some((rest, j)) => Some((seq![c] + rest, j)),
                None => None,
            }
        }
    }
}

/// Characters that could extend a number lexeme: digits, the decimal
/// point, and the exponent markers.
pub open spec fn spec_num_cont(c: char) -> bool {
    is_digit(c) || c == '.' || c == 'e' || c == 'E'
}

/// First index at or after `i` that does not hold a decimal digit.
pub open spec fn digits_end(s: Seq<char>, i: int) -> int
    decreases s.len() - i,
{
    if 0 <= i && i < s.len() && is_digit(s[i]) {
        digits_end(s, i + 1)
    } else {
        i
    }
}

/// Value of the decimal digits in `s[i..j]`.
pub open spec fn digits_val(s: Seq<char>, i: int, j: int) -> int
    decreases j - i,
{
    if j <= i {
        0
    } else {
        let d = if is_digit(s[j - 1]) {
            s[j - 1] as u32 - 48
        } else {
            0
        };
        digits_val(s, i, j - 1) * 10 + d
    }
}

/// End of a fraction part at `i`: past `.` and its digits when both are
/// there, else `i` itself.
pub open spec fn frac_end(s: Seq<char>, i: int) -> int {
    if 0 <= i && i < s.len() && s[i] == '.' && digits_end(s, i + 1) > i + 1 {
        digits_end(s, i + 1)
    } else {
        i
    }
}

/// End of an exponent part at `i`: past `e`/`E`, an optional sign, and
/// digits when they are there, else `i` itself.
pub open spec fn exp_end(s: Seq<char>, i: int) -> int {
    if 0 <= i && i < s.len() && (s[i] == 'e' || s[i] == 'E') {
        let j = if i + 1 < s.len() && (s[i + 1] == '+' || s[i + 1] == '-') {
            i + 2
        } else {
            i + 1
        };
        if digits_end(s, j) > j {
            digits_end(s, j)
        } else {
            i
        }
    } else {
        i
    }
}

/// A number at `i`: optional minus sign, digits, optional fraction and
/// exponent. A plain integer in the 64-bit range is an `Int`; any other
/// well-formed number is carried as its exact lexeme.
pub open spec fn p_num(s: Seq<char>, i: int) -> Option<(JVal, int)> {
    let d0 = if 0 <= i && i < s.len() && s[i] == '-' {
        i + 1
    } else {
        i
    };
    let ie = digits_end(s, d0);
    if ie == d0 {
        None
    } else {
        let fe = frac_end(s, ie);
        let ee = exp_end(s, fe);
        if fe == ie && ee == fe {
            let v = digits_val(s, d0, ie);
            if d0 == i + 1 {
                if v <= 0x8000000000000000 {
                    Some((JVal::Int(-v), ie))
                } else {
                    Some((JVal::FracNum(s.subrange(i, ie)), ie))
                }
            } else {
                if v <= 0x7fffffffffffffff {
                    Some((JVal::Int(v), ie))
                } else {
                    Some((JVal::FracNum(s.subrange(i, ie)), ie))
                }
            }
        } else {
            Some((JVal::FracNum(s.subrange(i, ee)), ee))
        }
    }
}

/// A JSON value at `i` (no leading whitespace); yields the value and the
/// index just past it.
pub open spec fn p_val(s: Seq<char>, i: int) -> Option<(JVal, int)>
    decreases s.len() - i, 0int,
{
    if i < 0 || i >= s.len() {
        None
    } else {
        let c = s[i];
        if c == 'n' {
            if match_lit(s, i, seq!['n', 'u', 'l', 'l']) {
                Some((JVal::Null, i + 4))
            } else {
                None
            }
        } else if c == 't' {
            if match_lit(s, i, seq!['t', 'r', 'u', 'e']) {
                Some((JVal::Bool(true), i + 4))
            } else {
                None
            }
        } else if c == 'f' {
            if match_lit(s, i, seq!['f', 'a', 'l', 's', 'e']) {
                Some((JVal::Bool(false), i + 5))
            } else {
                None
            }
        } else if c == '"' {
            match p_str(s, i + 1) {
                Some((cs, j)) => Some((JVal::Str(cs), j)),
                None => None,
            }
        } else if c == '[' {
            let j = skip_ws(s, i + 1);
            if j < s.len() && s[j] == ']' {
                Some((JVal::Arr(Seq::empty()), j + 1))
            } else if i < j && j <= s.len() {
                match p_items(s, j) {
                    Some((vs, e)) => Some((JVal::Arr(vs), e)),
                    None => None,
                }
            } else {
                None
            }
        } else if c == '{' {
            let j = skip_ws(s, i + 1);
            if j < s.len() && s[j] == '}' {
                Some((JVal::Obj(Seq::empty()), j + 1))
            } else if i < j && j <= s.len() {
                match p_members(s, j) {
                    Some((ms, e)) => Some((JVal::Obj(ms), e)),
                    None => None,
                }
            } else {
                None
            }
        } else if c == '-' || is_digit(c) {
            p_num(s, i)
        } else {
            None
        }
    }
}

/// One or more comma-separated array elements, then the closing bracket.
pub open spec fn p_items(s: Seq<char>, i: int) -> Option<(Seq<JVal>, int)>
    decreases s.len() - i, 1int,
{
    match p_val(s, i) {
        None => None,
        Some((v, j)) => {
            let k = skip_ws(s, j);
            if k < s.len() && s[k] == ',' {
                let m = skip_ws(s, k + 1);
                if i < m && m <= s.len() {
                    match p_items(s, m) {
                        None => None,
                        Some((rest, e)) => Some((seq![v] + rest, e)),
                    }
                } else {
                    None
                }
            } else if k < s.len() && s[k] == ']' {
                Some((seq![v], k + 1))
            } else {
                None
            }
        },
    }
}

/// One or more comma-separated object members, then the closing brace.
pub open spec fn p_members(s: Seq<char>, i: int) -> Option<(Seq<(Seq<char>, JVal)>, int)>
    decreases s.len() - i, 1int,
{
    if 0 <= i && i < s.len() && s[i] == '"' {
        match p_str(s, i + 1) {
            None => None,
            Some((key, j)) => {
                let k = skip_ws(s, j);
                if k < s.len() && s[k] == ':' {
                    let m = skip_ws(s, k + 1);
                    if i < m && m <= s.len() {
                        match p_val(s, m) {
                            None => None,
                            Some((v, e)) => {
                                let f = skip_ws(s, e);
                                if f < s.len() && s[f] == ',' {
                                    let g = skip_ws(s, f + 1);
                                    if i < g && g <= s.len() {
                                        match p_members(s, g) {
                                            None => None,
                                            Some((rest, h)) => Some((seq![(key, v)] + rest, h)),
                                        }
                                    } else {
                                        None
                                    }
                                } else if f < s.len() && s[f] == '}' {
                                    Some((seq![(key, v)], f + 1))
                                } else {
                                    None
                                }
                            },
                        }
                    } else {
                        None
                    }
                } else {
                    None
                }
            },
        }
    } else {
        None
    }
}

/// A whole text: one value, possibly surrounded by whitespace.
pub open spec fn parse_text(s: Seq<char>) -> Option<JVal> {
    let i = skip_ws(s, 0);
    match p_val(s, i) {
        Some((v, j)) => if skip_ws(s, j) == s.len() {
            Some(v)
        } else {
            None
        },
        None => None,
    }
}

// ---------------------------------------------------------------------------
// Executable parser, proved equal to the grammar
// ---------------------------------------------------------------------------
/// Relies on char::from_u32: `Some` exactly for Unicode scalar values, and
/// the returned character carries the given code.
#[verifier::external_body]
fn char_from_u32(u: u32) -> (r: Option<char>)
    ensures
        r matches Some(c) ==> c as u32 == u,
        r is Some <==> (u < 0xD800 || (0xE000 <= u && u <= 0x10FFFF)),
{
    char::from_u32(u)
}

/// A new vector holding `x` and then everything in `rest`.
fn cons_vec<T>(x: T, rest: Vec<T>) -> (v: Vec<T>)
    ensures
        v@ == seq![x] + rest@,
{
    let mut v: Vec<T> = Vec::new();
    v.push(x);
    let mut r = rest;
    v.append(&mut r);
    proof {
        assert(v@ =~= seq![x] + rest@);
    }
    v
}

fn ws_end(s: &Vec<char>, i: usize) -> (r: usize)
    requires
        i <= s.len(),
    ensures
        r as int == skip_ws(s@, i as int),
        i <= r <= s.len(),
{
    let mut j: usize = i;
    while j < s.len() && (s[j] == ' ' || s[j] == '\t' || s[j] == '\n' || s[j] == '\r')
        invariant
            i <= j <= s.len(),
            skip_ws(s@, i as int) == skip_ws(s@, j as int),
        decreases s@.len() - j,
    {
        j = j + 1;
    }
    proof {
        assert(skip_ws(s@, j as int) == j as int);
    }
    j
}

fn dg_end(s: &Vec<char>, i: usize) -> (r: usize)
    requires
        i <= s.len(),
    ensures
        r as int == digits_end(s@, i as int),
        i <= r <= s.len(),
{
    let mut j: usize = i;
    while j < s.len() && 48 <= s[j] as u32 && s[j] as u32 <= 57
        invariant
            i <= j <= s.len(),
            digits_end(s@, i as int) == digits_end(s@, j as int),
        decreases s@.len() - j,
    {
        j = j + 1;
    }
    proof {
        assert(digits_end(s@, j as int) == j as int);
    }
    j
}

/// Every position before the digit run's end holds a digit.
proof fn lemma_digits_end_digits(s: Seq<char>, i: int)
    requires
        0 <= i <= s.len(),
    ensures
        i <= digits_end(s, i) <= s.len(),
        forall|x: int| i <= x < digits_end(s, i) ==> is_digit(#[trigger] s[x]),
    decreases s.len() - i,
{
    if i < s.len() && is_digit(s[i]) {
        lemma_digits_end_digits(s, i + 1);
    }
}

proof fn lemma_digits_val_nonneg(s: Seq<char>, i: int, j: int)
    ensures
        digits_val(s, i, j) >= 0,
    decreases j - i,
{
    if j > i {
        lemma_digits_val_nonneg(s, i, j - 1);
    }
}

/// A fresh vector holding `s[a..b]`.
fn copy_range(s: &Vec<char>, a: usize, b: usize) -> (r: Vec<char>)
    requires
        a <= b <= s.len(),
    ensures
        r@ == s@.subrange(a as int, b as int),
{
    let mut out: Vec<char> = Vec::new();
    let mut k: usize = a;
    while k < b
        invariant
            a <= k <= b <= s.len(),
            out@ == s@.subrange(a as int, k as int),
        decreases b - k,
    {
        out.push(s[k]);
        proof {
            assert(out@ =~= s@.subrange(a as int, k + 1));
        }
        k = k + 1;
    }
    out
}

fn fr_end(s: &Vec<char>, i: usize) -> (r: usize)
    requires
        i <= s.len(),
    ensures
        r as int == frac_end(s@, i as int),
        i <= r <= s.len(),
{
    if i < s.len() && s[i] == '.' {
        let de = dg_end(s, i + 1);
        if de > i + 1 {
            return de;
        }
    }
    i
}

fn ex_end(s: &Vec<char>, i: usize) -> (r: usize)
    requires
        i <= s.len(),
    ensures
        r as int == exp_end(s@, i as int),
        i <= r <= s.len(),
{
    if i < s.len() && (s[i] == 'e' || s[i] == 'E') {
        let j: usize = if i + 1 < s.len() && (s[i + 1] == '+' || s[i + 1] == '-') {
            i + 2
        } else {
            i + 1
        };
        let de = dg_end(s, j);
        if de > j {
            return de;
        }
    }
    i
}

fn px_num(s: &Vec<char>, i: usize) -> (r: Option<(Json, usize)>)
    requires
        i < s.len(),
        s@[i as int] == '-' || is_digit(s@[i as int]),
    ensures
        r is Some <==> p_num(s@, i as int) is Some,
        r matches Some((j, n)) ==> p_num(s@, i as int) == Some((j@, n as int)) && i < n && n
            <= s.len(),
{
    let neg = s[i] == '-';
    let d0: usize = if neg {
        i + 1
    } else {
        i
    };
    let e = dg_end(s, d0);
    proof {
        lemma_digits_end_digits(s@, d0 as int);
    }
    if e == d0 {
        assert(p_num(s@, i as int) is None);
        None
    } else {
        let fe = fr_end(s, e);
        let ee = ex_end(s, fe);
        if fe != e || ee != fe {
            // a fraction or exponent part: keep the exact lexeme
            return Some((Json::FracNum(copy_range(s, i, ee)), ee));
        }
        let mut acc: u128 = 0;
        let mut over = false;
        let mut k: usize = d0;
        while k < e
            invariant
                d0 <= k <= e <= s.len(),
                e as int == digits_end(s@, d0 as int),
                forall|x: int| d0 <= x < e ==> is_digit(#[trigger] s@[x]),
                over ==> digits_val(s@, d0 as int, k as int) > 0x8000000000000000,
                !over ==> acc == digits_val(s@, d0 as int, k as int) && acc
                    <= 0x8000000000000000,
            decreases e - k,
        {
            let c = s[k];
            assert(is_digit(s@[k as int]));
            let d: u128 = (c as u32 - 48) as u128;
            proof {
                lemma_digits_val_nonneg(s@, d0 as int, k as int);
                assert(digits_val(s@, d0 as int, k as int + 1) == digits_val(
                    s@,
                    d0 as int,
                    k as int,
                ) * 10 + d);
            }
            if !over {
                acc = acc * 10 + d;
                if acc > 0x8000000000000000 {
                    over = true;
                }
            }
            k = k + 1;
        }
        if over {
            // an integer out of the 64-bit range: keep the exact lexeme
            Some((Json::FracNum(copy_range(s, i, e)), e))
        } else if neg {
            let v: i64 = if acc == 0x8000000000000000 {
                i64::MIN
            } else {
                let m = acc as i64;
                -m
            };
            assert(v as int == -digits_val(s@, d0 as int, e as int));
            Some((Json::Int(v), e))
        } else {
            if acc > 0x7fffffffffffffff {
                Some((Json::FracNum(copy_range(s, i, e)), e))
            } else {
                let v: i64 = acc as i64;
                Some((Json::Int(v), e))
            }
        }
    }
}

fn hexv(c: char) -> (r: i32)
    ensures
        r as int == hex_val(c),
{
    let u = c as u32;
    if 48 <= u && u <= 57 {
        (u - 48) as i32
    } else if 97 <= u && u <= 102 {
        (u - 87) as i32
    } else if 65 <= u && u <= 70 {
        (u - 55) as i32
    } else {
        -1
    }
}

fn hex4x(s: &Vec<char>, i: usize) -> (r: i32)
    requires
        i + 4 <= s.len(),
    ensures
        r as int == hex4(s@, i as int),
{
    let h0 = hexv(s[i]);
    let h1 = hexv(s[i + 1]);
    let h2 = hexv(s[i + 2]);
    let h3 = hexv(s[i + 3]);
    if h0 >= 0 && h1 >= 0 && h2 >= 0 && h3 >= 0 {
        h0 * 4096 + h1 * 256 + h2 * 16 + h3
    } else {
        -1
    }
}

fn esc_code_x(e: char) -> (r: Option<char>)
    ensures
        r == esc_code(e),
{
    if e == '"' {
        Some('"')
    } else if e == '\\' {
        Some('\\')
    } else if e == '/' {
        Some('/')
    } else if e == 'b' {
        Some('\u{0008}')
    } else if e == 'f' {
        Some('\u{000C}')
    } else if e == 'n' {
        Some('\n')
    } else if e == 'r' {
        Some('\r')
    } else if e == 't' {
        Some('\t')
    } else {
        None
    }
}

fn px_str(s: &Vec<char>, i: usize) -> (r: Option<(Vec<char>, usize)>)
    requires
        i <= s.len(),
    ensures
        r is Some <==> p_str(s@, i as int) is Some,
        r matches Some((cs, j)) ==> p_str(s@, i as int) == Some((cs@, j as int)) && i < j && j
            <= s.len(),
    decreases s@.len() - i,
{
    if i >= s.len() {
        None
    } else {
        let c = s[i];
        if c == '"' {
            Some((Vec::new(), i + 1))
        } else if c == '\\' {
            if s.len() - i >= 2 {
                let e = s[i + 1];
                if e == 'u' {
                    if s.len() - i >= 6 {
                        let h = hex4x(s, i + 2);
                        if h >= 0 && ((h as u32) < 0xD800 || ((h as u32) >= 0xE000 && (h as u32)
                            <= 0x10FFFF)) {
                            match char_from_u32(h as u32) {
                                Some(ch) => {
                                    proof {
                                        vstd::utf8::char_u32_cast(ch, h as u32);
                                    }
                                    match px_str(s, i + 6) {
                                        Some((rest, j)) => {
                                            let ghost restv = rest@;
                                            let v = cons_vec(ch, rest);
                                            assert(v@ == seq![ch] + restv);
                                            Some((v, j))
                                        },
                                        None => None,
                                    }
                                },
                                None => {
                                    proof {
                                        assert(false);
                                    }
                                    None
                                },
                            }
                        } else if h >= 0xD800 && h <= 0xDBFF {
                            if s.len() - i >= 12 && s[i + 6] == '\\' && s[i + 7] == 'u' {
                                let l = hex4x(s, i + 8);
                                if l >= 0xDC00 && l <= 0xDFFF {
                                    let cp: u32 = 0x10000 + ((h as u32) - 0xD800) * 0x400 + ((
                                    l as u32) - 0xDC00);
                                    match char_from_u32(cp) {
                                        Some(ch) => {
                                            proof {
                                                vstd::utf8::char_u32_cast(ch, cp);
                                            }
                                            match px_str(s, i + 12) {
                                                Some((rest, j)) => {
                                                    let ghost restv = rest@;
                                                    let v = cons_vec(ch, rest);
                                                    assert(v@ == seq![ch] + restv);
                                                    Some((v, j))
                                                },
                                                None => None,
                                            }
                                        },
                                        None => {
                                            proof {
                                                assert(false);
                                            }
                                            None
                                        },
                                    }
                                } else {
                                    None
                                }
                            } else {
                                None
                            }
                        } else {
                            None
                        }
                    } else {
                        None
                    }
                } else {
                    match esc_code_x(e) {
                        Some(d) => match px_str(s, i + 2) {
                            Some((rest, j)) => {
                                let ghost restv = rest@;
                                let v = cons_vec(d, rest);
                                assert(v@ == seq![d] + restv);
                                Some((v, j))
                            },
                            None => None,
                        },
                        None => None,
                    }
                }
            } else {
                None
            }
        } else if (c as u32) < 0x20 {
            None
        } else {
            match px_str(s, i + 1) {
                Some((rest, j)) => {
                    let ghost restv = rest@;
                    let v = cons_vec(c, rest);
                    assert(v@ == seq![c] + restv);
                    Some((v, j))
                },
                None => None,
            }
        }
    }
}

fn lit4(s: &Vec<char>, i: usize, c0: char, c1: char, c2: char, c3: char) -> (r: bool)
    requires
        i <= s.len(),
    ensures
        r == match_lit(s@, i as int, seq![c0, c1, c2, c3]),
{
    if s.len() - i >= 4 {
        let r = s[i] == c0 && s[i + 1] == c1 && s[i + 2] == c2 && s[i + 3] == c3;
        proof {
            let sub = s@.subrange(i as int, i as int + 4);
            let lit = seq![c0, c1, c2, c3];
            assert(sub.len() == 4);
            assert(sub[0] == s@[i as int]);
            assert(sub[1] == s@[i as int + 1]);
            assert(sub[2] == s@[i as int + 2]);
            assert(sub[3] == s@[i as int + 3]);
            if r {
                assert(sub =~= lit);
            } else {
                if sub == lit {
                    assert(false);
                }
            }
        }
        r
    } else {
        false
    }
}

fn lit5(s: &Vec<char>, i: usize, c0: char, c1: char, c2: char, c3: char, c4: char) -> (r: bool)
    requires
        i <= s.len(),
    ensures
        r == match_lit(s@, i as int, seq![c0, c1, c2, c3, c4]),
{
    if s.len() - i >= 5 {
        let r = s[i] == c0 && s[i + 1] == c1 && s[i + 2] == c2 && s[i + 3] == c3 && s[i + 4] == c4;
        proof {
            let sub = s@.subrange(i as int, i as int + 5);
            let lit = seq![c0, c1, c2, c3, c4];
            assert(sub.len() == 5);
            assert(sub[0] == s@[i as int]);
            assert(sub[1] == s@[i as int + 1]);
            assert(sub[2] == s@[i as int + 2]);
            assert(sub[3] == s@[i as int + 3]);
            assert(sub[4] == s@[i as int + 4]);
            if r {
                assert(sub =~= lit);
            } else {
                if sub == lit {
                    assert(false);
                }
            }
        }
        r
    } else {
        false
    }
}

fn px_val(s: &Vec<char>, i: usize) -> (r: Option<(Json, usize)>)
    requires
        i <= s.len(),
    ensures
        r is Some <==> p_val(s@, i as int) is Some,
        r matches Some((j, n)) ==> p_val(s@, i as int) == Some((j@, n as int)) && i < n && n
            <= s.len(),
    decreases s@.len() - i, 0int,
{
    if i >= s.len() {
        None
    } else {
        let c = s[i];
        if c == 'n' {
            if lit4(s, i, 'n', 'u', 'l', 'l') {
                Some((Json::Null, i + 4))
            } else {
                None
            }
        } else if c == 't' {
            if lit4(s, i, 't', 'r', 'u', 'e') {
                Some((Json::Bool(true), i + 4))
            } else {
                None
            }
        } else if c == 'f' {
            if lit5(s, i, 'f', 'a', 'l', 's', 'e') {
                Some((Json::Bool(false), i + 5))
            } else {
                None
            }
        } else if c == '"' {
            match px_str(s, i + 1) {
                Some((cs, j)) => Some((Json::Str(cs), j)),
                None => None,
            }
        } else if c == '[' {
            let j = ws_end(s, i + 1);
            if j < s.len() && s[j] == ']' {
                let v: Vec<Json> = Vec::new();
                assert(view_json_seq(v@) =~= Seq::<JVal>::empty());
                Some((Json::Arr(v), j + 1))
            } else {
                match px_items(s, j) {
                    Some((vs, e)) => Some((Json::Arr(vs), e)),
                    None => None,
                }
            }
        } else if c == '{' {
            let j = ws_end(s, i + 1);
            if j < s.len() && s[j] == '}' {
                let v: Vec<(Vec<char>, Json)> = Vec::new();
                assert(view_json_members(v@) =~= Seq::<(Seq<char>, JVal)>::empty());
                Some((Json::Obj(v), j + 1))
            } else {
                match px_members(s, j) {
                    Some((ms, e)) => Some((Json::Obj(ms), e)),
                    None => None,
                }
            }
        } else if c == '-' || (48 <= c as u32 && c as u32 <= 57) {
            px_num(s, i)
        } else {
            None
        }
    }
}

fn px_items(s: &Vec<char>, i: usize) -> (r: Option<(Vec<Json>, usize)>)
    requires
        i <= s.len(),
    ensures
        r is Some <==> p_items(s@, i as int) is Some,
        r matches Some((vs, e)) ==> p_items(s@, i as int) == Some(
            (view_json_seq(vs@), e as int),
        ) && i < e && e <= s.len(),
    decreases s@.len() - i, 1int,
{
    match px_val(s, i) {
        None => None,
        Some((v, j)) => {
            let k = ws_end(s, j);
            if k < s.len() && s[k] == ',' {
                let m = ws_end(s, k + 1);
                match px_items(s, m) {
                    None => None,
                    Some((rest, e)) => {
                        let ghost vg: Json = v;
                        let ghost restg: Seq<Json> = rest@;
                        let vs = cons_vec(v, rest);
                        proof {
                            assert(vs@ == seq![vg] + restg);
                            assert(vs@[0] == vg);
                            assert(forall|x: int|
                                1 <= x < vs@.len() ==> #[trigger] vs@[x] == restg[x - 1]);
                            lemma_view_json_seq(restg);
                            lemma_view_json_seq(vs@);
                            assert forall|x: int|
                                0 <= x < view_json_seq(vs@).len() implies view_json_seq(vs@)[x]
                                == (seq![view_json(vg)] + view_json_seq(restg))[x] by {
                                assert(view_json_seq(vs@)[x] == view_json(vs@[x]));
                                if x == 0 {
                                    assert(vs@[0] == vg);
                                } else {
                                    assert(vs@[x] == restg[x - 1]);
                                    assert(view_json_seq(restg)[x - 1] == view_json(
                                        restg[x - 1],
                                    ));
                                }
                            }
                            assert(view_json_seq(vs@) =~= seq![view_json(vg)] + view_json_seq(
                                restg,
                            ));
                        }
                        Some((vs, e))
                    },
                }
            } else if k < s.len() && s[k] == ']' {
                let ghost vv = v@;
                let vs = cons_vec(v, Vec::new());
                proof {
                    lemma_view_json_seq(vs@);
                    assert(view_json_seq(vs@) =~= seq![vv]);
                }
                Some((vs, k + 1))
            } else {
                None
            }
        },
    }
}

fn px_members(s: &Vec<char>, i: usize) -> (r: Option<(Vec<(Vec<char>, Json)>, usize)>)
    requires
        i <= s.len(),
    ensures
        r is Some <==> p_members(s@, i as int) is Some,
        r matches Some((ms, e)) ==> p_members(s@, i as int) == Some(
            (view_json_members(ms@), e as int),
        ) && i < e && e <= s.len(),
    decreases s@.len() - i, 1int,
{
    if i < s.len() && s[i] == '"' {
        match px_str(s, i + 1) {
            None => None,
            Some((key, j)) => {
                let k = ws_end(s, j);
                if k < s.len() && s[k] == ':' {
                    let m = ws_end(s, k + 1);
                    match px_val(s, m) {
                        None => None,
                        Some((v, e)) => {
                            let f = ws_end(s, e);
                            if f < s.len() && s[f] == ',' {
                                let g = ws_end(s, f + 1);
                                match px_members(s, g) {
                                    None => None,
                                    Some((rest, h)) => {
                                        let ghost kg: Vec<char> = key;
                                        let ghost vg: Json = v;
                                        let ghost restg: Seq<(Vec<char>, Json)> = rest@;
                                        let ms = cons_vec((key, v), rest);
                                        proof {
                                            assert(ms@ == seq![(kg, vg)] + restg);
                                            assert(ms@[0] == (kg, vg));
                                            assert(forall|x: int|
                                                1 <= x < ms@.len() ==> #[trigger] ms@[x] == restg[x
                                                    - 1]);
                                            lemma_view_json_members(restg);
                                            lemma_view_json_members(ms@);
                                            assert forall|x: int|
                                                0 <= x < view_json_members(ms@).len() implies
                                                view_json_members(ms@)[x] == (seq![(kg@, view_json(vg))]
                                                + view_json_members(restg))[x] by {
                                                assert(view_json_members(ms@)[x] == (
                                                ms@[x].0@,
                                                view_json(ms@[x].1),
                                                ));
                                                if x == 0 {
                                                    assert(ms@[0] == (kg, vg));
                                                } else {
                                                    assert(ms@[x] == restg[x - 1]);
                                                    assert(view_json_members(restg)[x - 1] == (
                                                    restg[x - 1].0@,
                                                    view_json(restg[x - 1].1),
                                                    ));
                                                }
                                            }
                                            assert(view_json_members(ms@) =~= seq![(kg@, view_json(vg))]
                                                + view_json_members(restg));
                                        }
                                        Some((ms, h))
                                    },
                                }
                            } else if f < s.len() && s[f] == '}' {
                                let ghost keyv = key@;
                                let ghost vv = v@;
                                let ms = cons_vec((key, v), Vec::new());
                                proof {
                                    lemma_view_json_members(ms@);
                                    assert(view_json_members(ms@) =~= seq![(keyv, vv)]);
                                }
                                Some((ms, f + 1))
                            } else {
                                None
                            }
                        },
                    }
                } else {
                    None
                }
            },
        }
    } else {
        None
    }
}

/// Parse a whole text: exactly `parse_text` of the input.
pub fn parse_json_chars(s: &Vec<char>) -> (r: Option<Json>)
    ensures
        r is Some <==> parse_text(s@) is Some,
        r matches Some(j) ==> parse_text(s@) == Some(j@),
{
    let i = ws_end(s, 0);
    match px_val(s, i) {
        Some((j, n)) => {
            let e = ws_end(s, n);
            if e == s.len() {
                Some(j)
            } else {
                None
            }
        },
        None => None,
    }
}

// ---------------------------------------------------------------------------
// Round trip: parsing canonical text returns the value
// ---------------------------------------------------------------------------
proof fn lemma_hex_val_of_digit(k: int)
    requires
        0 <= k < 16,
    ensures
        hex_val(spec_hex_digit(k)) == k,
{
}

proof fn lemma_dec_digits_are_digits(n: int)
    requires
        n >= 0,
    ensures
        dec_digits(n).len() >= 1,
        forall|k: int| 0 <= k < dec_digits(n).len() ==> is_digit(#[trigger] dec_digits(n)[k]),
    decreases n,
{
    if n >= 10 {
        lemma_dec_digits_are_digits(n / 10);
        assert forall|k: int| 0 <= k < dec_digits(n).len() implies is_digit(
            #[trigger] dec_digits(n)[k],
        ) by {
            if k < dec_digits(n / 10).len() {
                assert(dec_digits(n)[k] == dec_digits(n / 10)[k]);
            } else {
                assert(dec_digits(n)[k] == spec_hex_digit(n % 10));
            }
        }
    } else {
        assert(is_digit(spec_hex_digit(n)));
    }
}

/// A run of digits bounded by a non-digit (or the end) is exactly what
/// `digits_end` spans.
proof fn lemma_digits_end_of_run(s: Seq<char>, i: int, e: int)
    requires
        0 <= i <= e <= s.len(),
        forall|k: int| i <= k < e ==> is_digit(#[trigger] s[k]),
        e == s.len() || !is_digit(s[e]),
    ensures
        digits_end(s, i) == e,
    decreases e - i,
{
    if i < e {
        lemma_digits_end_of_run(s, i + 1, e);
    }
}

/// The digits of `n` written at `i` evaluate back to `n`.
proof fn lemma_digits_val_eval(s: Seq<char>, i: int, n: int)
    requires
        n >= 0,
        0 <= i,
        i + dec_digits(n).len() <= s.len(),
        s.subrange(i, i + dec_digits(n).len()) == dec_digits(n),
    ensures
        digits_val(s, i, i + dec_digits(n).len()) == n,
    decreases n,
{
    let t = dec_digits(n);
    let e = i + t.len();
    assert forall|k: int| 0 <= k < t.len() implies s[i + k] == t[k] by {
        assert(s.subrange(i, e)[k] == s[i + k]);
    }
    if n < 10 {
        assert(t =~= seq![spec_hex_digit(n)]);
        assert(s[i + 0] == t[0]);
        assert(s[i] == spec_hex_digit(n));
        assert(digits_val(s, i, i + 1) == digits_val(s, i, i) * 10 + (s[i] as u32 - 48));
        assert(s[i] as u32 - 48 == n);
    } else {
        let tp = dec_digits(n / 10);
        assert(t == tp + seq![spec_hex_digit(n % 10)]);
        assert forall|k: int| 0 <= k < tp.len() implies t[k] == tp[k] by {}
        assert(s.subrange(i, i + tp.len()) =~= tp) by {
            assert forall|k: int| 0 <= k < tp.len() implies s.subrange(i, i + tp.len())[k]
                == tp[k] by {
                assert(s.subrange(i, i + tp.len())[k] == s[i + k]);
                assert(t[k] == tp[k]);
            }
        }
        lemma_digits_val_eval(s, i, n / 10);
        assert(t[t.len() - 1] == spec_hex_digit(n % 10));
        assert(s[e - 1] == spec_hex_digit(n % 10));
        assert(is_digit(s[e - 1])) by {
            lemma_dec_digits_are_digits(n);
            assert(t[t.len() - 1] == dec_digits(n)[t.len() - 1]);
        }
        assert(s[e - 1] as u32 - 48 == n % 10);
        assert(digits_val(s, i, e) == digits_val(s, i, e - 1) * 10 + (n % 10));
    }
}

/// The first character of canonical text is the value's syntactic head.
proof fn lemma_jtext_head(v: JVal)
    requires
        wf_jval(v),
    ensures
        jtext(v).len() >= 1,
        ({
            let c = jtext(v)[0];
            c == 'n' || c == 't' || c == 'f' || c == '"' || c == '[' || c == '{' || c == '-'
                || is_digit(c)
        }),
        !is_ws(jtext(v)[0]),
        jtext(v)[0] != ']',
        jtext(v)[0] != '}',
        jtext(v)[0] != ',',
        jtext(v)[0] != ':',
{
    match v {
        JVal::Int(i) => {
            if i < 0 {
                assert(jtext(v)[0] == '-');
            } else {
                lemma_dec_digits_are_digits(i);
                assert(jtext(v)[0] == dec_digits(i)[0]);
                assert(is_digit(jtext(v)[0]));
            }
        },
        JVal::Str(s) => {
            assert(jtext(v)[0] == '"');
        },
        JVal::Arr(a) => {
            assert(jtext(v)[0] == '[');
        },
        JVal::Obj(m) => {
            assert(jtext(v)[0] == '{');
        },
        JVal::FracNum(lex) => {
            if lex.len() == 0 {
                assert(digits_end(lex, 0) == 0);
                assert(false);
            }
            if lex[0] != '-' && !is_digit(lex[0]) {
                assert(digits_end(lex, 0) == 0);
                assert(false);
            }
            assert(jtext(v)[0] == lex[0]);
        },
        _ => {},
    }
}

/// Parsing an escaped string body followed by its closing quote yields the
/// original characters.
proof fn lemma_p_str_of_esc(cs: Seq<char>, s: Seq<char>, i: int)
    requires
        0 <= i,
        i + esc_seq(cs).len() + 1 <= s.len(),
        s.subrange(i, i + esc_seq(cs).len()) == esc_seq(cs),
        s[i + esc_seq(cs).len()] == '"',
    ensures
        p_str(s, i) == Some((cs, i + esc_seq(cs).len() + 1)),
    decreases cs.len(),
{
    let t = esc_seq(cs);
    assert forall|k: int| 0 <= k < t.len() implies s[i + k] == t[k] by {
        assert(s.subrange(i, i + t.len())[k] == s[i + k]);
    }
    if cs.len() == 0 {
        assert(t.len() == 0);
        assert(s[i] == '"');
    } else {
        let c = cs[0];
        let rest = cs.drop_first();
        let e0 = esc_char(c);
        let t1 = esc_seq(rest);
        assert(t == e0 + t1);
        assert forall|k: int| 0 <= k < e0.len() implies s[i + k] == e0[k] by {
            assert(t[k] == e0[k]);
        }
        let i1 = i + e0.len();
        assert(s.subrange(i1, i1 + t1.len()) =~= t1) by {
            assert forall|k: int| 0 <= k < t1.len() implies s.subrange(i1, i1 + t1.len())[k]
                == t1[k] by {
                assert(s.subrange(i1, i1 + t1.len())[k] == s[i1 + k]);
                assert(t[e0.len() + k] == t1[k]);
            }
        }
        assert(s[i1 + t1.len()] == '"');
        lemma_p_str_of_esc(rest, s, i1);
        assert(seq![c] + rest =~= cs);
        if c == '"' {
            assert(s[i] == '\\' && s[i + 1] == '"');
            assert(p_str(s, i) == Some((cs, i + t.len() + 1)));
        } else if c == '\\' {
            assert(s[i] == '\\' && s[i + 1] == '\\');
            assert(p_str(s, i) == Some((cs, i + t.len() + 1)));
        } else if c == '\n' {
            assert(s[i] == '\\' && s[i + 1] == 'n');
            assert(p_str(s, i) == Some((cs, i + t.len() + 1)));
        } else if c == '\r' {
            assert(s[i] == '\\' && s[i + 1] == 'r');
            assert(p_str(s, i) == Some((cs, i + t.len() + 1)));
        } else if c == '\t' {
            assert(s[i] == '\\' && s[i + 1] == 't');
            assert(p_str(s, i) == Some((cs, i + t.len() + 1)));
        } else if (c as u32) < 0x20 {
            assert(s[i] == '\\' && s[i + 1] == 'u' && s[i + 2] == '0' && s[i + 3] == '0');
            assert(s[i + 4] == spec_hex_digit(((c as u32) / 16) as int));
            assert(s[i + 5] == spec_hex_digit(((c as u32) % 16) as int));
            lemma_hex_val_of_digit(((c as u32) / 16) as int);
            lemma_hex_val_of_digit(((c as u32) % 16) as int);
            assert(hex_val('0') == 0);
            let h = hex4(s, i + 2);
            assert(h == ((c as u32) / 16) * 16 + (c as u32) % 16);
            assert(h == c as u32);
            assert(0 <= h < 0x20);
            assert(is_scalar_value(h));
            vstd::utf8::char_u32_cast(c, c as u32);
            assert((h as u32) as char == c);
            assert(p_str(s, i + 6) == Some((rest, i + t.len() + 1)));
            assert(p_str(s, i) == Some((cs, i + t.len() + 1)));
        } else {
            assert(s[i] == c);
            assert(c != '"' && c != '\\' && !((c as u32) < 0x20));
            assert(p_str(s, i + 1) == Some((rest, i + t.len() + 1)));
            assert(p_str(s, i) == Some((cs, i + t.len() + 1)));
        }
    }
}

/// Parsing the canonical text of a well-formed value, written at `i` and
/// not followed by a digit, returns exactly that value.
#[verifier::rlimit(100)]
#[verifier::spinoff_prover]
/// A digit run in a copied window scans to the same relative end, provided
/// the character after the window cannot extend a run.
proof fn lemma_digits_end_translate(s: Seq<char>, i: int, lex: Seq<char>, a: int)
    requires
        0 <= i,
        i + lex.len() <= s.len(),
        forall|k: int| 0 <= k < lex.len() ==> s[i + k] == #[trigger] lex[k],
        0 <= a <= lex.len(),
        i + lex.len() == s.len() || !is_digit(s[i + lex.len()]),
    ensures
        digits_end(s, i + a) == i + digits_end(lex, a),
        a <= digits_end(lex, a) <= lex.len(),
    decreases lex.len() - a,
{
    if a < lex.len() {
        assert(s[i + a] == lex[a]);
        if is_digit(lex[a]) {
            lemma_digits_end_translate(s, i, lex, a + 1);
        }
    } else {
        assert(digits_end(lex, a) == a);
        if i + a < s.len() {
            assert(!is_digit(s[i + a]));
        }
    }
}

/// Every character strictly before the scanned end of a digit run is a digit.
proof fn lemma_digits_end_all(s: Seq<char>, a: int)
    requires
        0 <= a <= s.len(),
    ensures
        a <= digits_end(s, a) <= s.len(),
        forall|k: int| a <= k < digits_end(s, a) ==> is_digit(#[trigger] s[k]),
    decreases s.len() - a,
{
    if a < s.len() && is_digit(s[a]) {
        lemma_digits_end_all(s, a + 1);
    }
}

/// Digit runs in a copied window evaluate to the same number.
proof fn lemma_digits_val_translate(s: Seq<char>, i: int, lex: Seq<char>, a: int, b: int)
    requires
        0 <= i,
        i + lex.len() <= s.len(),
        forall|k: int| 0 <= k < lex.len() ==> s[i + k] == #[trigger] lex[k],
        0 <= a,
        b <= lex.len(),
    ensures
        digits_val(s, i + a, i + b) == digits_val(lex, a, b),
    decreases b - a,
{
    if b > a {
        assert(s[i + (b - 1)] == lex[b - 1]);
        lemma_digits_val_translate(s, i, lex, a, b - 1);
    }
}

/// A canonical number lexeme embedded in a larger text, with nothing after it
/// that could extend a number, scans to the same value and to its own end.
proof fn lemma_p_num_translate(s: Seq<char>, i: int, lex: Seq<char>)
    requires
        0 <= i,
        i + lex.len() <= s.len(),
        forall|k: int| 0 <= k < lex.len() ==> s[i + k] == #[trigger] lex[k],
        i + lex.len() == s.len() || !spec_num_cont(s[i + lex.len()]),
        p_num(lex, 0) == Some((JVal::FracNum(lex), lex.len() as int)),
    ensures
        p_num(s, i) == Some((JVal::FracNum(lex), i + lex.len())),
{
    let n = lex.len() as int;
    if n == 0 {
        assert(digits_end(lex, 0) == 0);
        assert(false);
    }
    assert(s[i + 0] == lex[0]);
    let d0: int = if lex[0] == '-' {
        1
    } else {
        0
    };
    lemma_digits_end_translate(s, i, lex, d0);
    let ie = digits_end(lex, d0);
    if ie == d0 {
        assert(false);
    }
    let fe = frac_end(lex, ie);
    let ee = exp_end(lex, fe);
    // The hypothesis pins the scanned end at the lexeme's own length.
    assert((fe == ie && ee == fe) ==> ie == n);
    assert(!(fe == ie && ee == fe) ==> ee == n);
    // The fraction part scans alike on both sides.
    if fe > ie {
        assert(ie < n && lex[ie] == '.' && digits_end(lex, ie + 1) == fe > ie + 1);
        assert(s[i + ie] == '.');
        lemma_digits_end_translate(s, i, lex, ie + 1);
        assert(frac_end(s, i + ie) == i + fe);
    } else {
        if ie < n {
            assert(s[i + ie] == lex[ie]);
            if lex[ie] == '.' {
                lemma_digits_end_translate(s, i, lex, ie + 1);
            }
            assert(frac_end(s, i + ie) == i + ie);
        } else {
            assert(i + ie == s.len() || !spec_num_cont(s[i + ie]));
            assert(frac_end(s, i + ie) == i + ie);
        }
    }
    // So does the exponent part.
    if ee > fe {
        assert(fe < n && (lex[fe] == 'e' || lex[fe] == 'E'));
        assert(s[i + fe] == lex[fe]);
        if fe + 1 == n {
            assert(digits_end(lex, n) == n);
            assert(exp_end(lex, fe) == fe);
            assert(false);
        }
        assert(fe + 1 < n);
        assert(s[i + fe + 1] == lex[fe + 1]);
        let j: int = if lex[fe + 1] == '+' || lex[fe + 1] == '-' {
            fe + 2
        } else {
            fe + 1
        };
        assert(j <= n) by {
            if lex[fe + 1] == '+' || lex[fe + 1] == '-' {
                lemma_digits_end_all(lex, fe + 2);
            }
        }
        lemma_digits_end_translate(s, i, lex, j);
        assert(digits_end(lex, j) == ee > j);
        assert(exp_end(s, i + fe) == i + ee);
    } else {
        if fe < n {
            assert(s[i + fe] == lex[fe]);
            if lex[fe] == 'e' || lex[fe] == 'E' {
                // The scan would have ended before the lexeme's last character.
                if fe + 1 < n {
                    assert(s[i + fe + 1] == lex[fe + 1]);
                    let j: int = if lex[fe + 1] == '+' || lex[fe + 1] == '-' {
                        fe + 2
                    } else {
                        fe + 1
                    };
                    if j <= n {
                        lemma_digits_end_translate(s, i, lex, j);
                    }
                    assert(exp_end(s, i + fe) == i + fe);
                } else {
                    assert(digits_end(lex, fe + 1) == fe + 1);
                    assert(ee == fe);
                    assert(fe == n - 1);
                    assert((fe == ie && ee == fe) ==> ie == n);
                    assert(false);
                }
            } else {
                assert(exp_end(s, i + fe) == i + fe);
            }
        } else {
            assert(i + fe == s.len() || !spec_num_cont(s[i + fe]));
            assert(exp_end(s, i + fe) == i + fe);
        }
    }
    lemma_digits_val_translate(s, i, lex, d0, ie);
    assert(s.subrange(i, i + n) =~= lex);
    assert(frac_end(s, digits_end(s, i + d0)) == i + fe);
    assert(exp_end(s, i + fe) == i + ee);
    if fe == ie && ee == fe {
        assert(s.subrange(i, i + ie) =~= lex);
    }
}

#[verifier::rlimit(100)]
#[verifier::spinoff_prover]
pub proof fn lemma_parse_of_text(v: JVal, s: Seq<char>, i: int)
    requires
        wf_jval(v),
        0 <= i,
        i + jtext(v).len() <= s.len(),
        s.subrange(i, i + jtext(v).len()) == jtext(v),
        i + jtext(v).len() == s.len() || !spec_num_cont(s[i + jtext(v).len()]),
    ensures
        p_val(s, i) == Some((v, i + jtext(v).len())),
    decreases v, 0int,
{
    let t = jtext(v);
    let e = i + t.len();
    assert forall|k: int| 0 <= k < t.len() implies s[i + k] == t[k] by {
        assert(s.subrange(i, e)[k] == s[i + k]);
    }
    lemma_jtext_head(v);
    assert(s[i + 0] == t[0]);
    match v {
        JVal::Null => {
            assert(s.subrange(i, i + 4) == seq!['n', 'u', 'l', 'l']);
        },
        JVal::Bool(b) => {
            if b {
                assert(s.subrange(i, i + 4) == seq!['t', 'r', 'u', 'e']);
            } else {
                assert(s.subrange(i, i + 5) == seq!['f', 'a', 'l', 's', 'e']);
            }
        },
        JVal::Int(n) => {
            if n >= 0 {
                lemma_dec_digits_are_digits(n);
                assert(is_digit(s[i]));
                assert forall|k: int| i <= k < e implies is_digit(#[trigger] s[k]) by {
                    assert(s[i + (k - i)] == t[k - i]);
                }
                lemma_digits_end_of_run(s, i, e);
                lemma_digits_val_eval(s, i, n);
                assert(e == s.len() || !spec_num_cont(s[e]));
                assert(frac_end(s, e) == e);
                assert(exp_end(s, e) == e);
                assert(p_num(s, i) == Some((JVal::Int(n), e)));
            } else {
                assert(s[i] == '-');
                let tp = dec_digits(-n);
                lemma_dec_digits_are_digits(-n);
                assert forall|k: int| 0 <= k < tp.len() implies s[i + 1 + k] == tp[k] by {
                    assert(t[1 + k] == tp[k]);
                    assert(s[i + (1 + k)] == t[1 + k]);
                }
                assert(s.subrange(i + 1, i + 1 + tp.len()) =~= tp) by {
                    assert forall|k: int|
                        0 <= k < tp.len() implies s.subrange(i + 1, i + 1 + tp.len())[k]
                        == tp[k] by {
                        assert(s.subrange(i + 1, i + 1 + tp.len())[k] == s[i + 1 + k]);
                    }
                }
                assert forall|k: int| i + 1 <= k < e implies is_digit(#[trigger] s[k]) by {
                    assert(s[i + 1 + (k - i - 1)] == tp[k - i - 1]);
                }
                lemma_digits_end_of_run(s, i + 1, e);
                lemma_digits_val_eval(s, i + 1, -n);
                assert(digits_end(s, i + 1) != i + 1);
                assert(e == s.len() || !spec_num_cont(s[e]));
                assert(frac_end(s, e) == e);
                assert(exp_end(s, e) == e);
                assert(p_num(s, i) == Some((JVal::Int(n), e)));
            }
        },
        JVal::FracNum(lex) => {
            assert(t == lex);
            lemma_p_num_translate(s, i, lex);
            assert(s[i] == '-' || is_digit(s[i]));
            assert(p_val(s, i) == Some((v, e)));
        },
        JVal::Str(cs) => {
            assert(s[i] == '"');
            let esc = esc_seq(cs);
            assert(t == seq!['"'] + esc + seq!['"']);
            assert forall|k: int| 0 <= k < esc.len() implies s[i + 1 + k] == esc[k] by {
                assert(t[1 + k] == esc[k]);
                assert(s[i + (1 + k)] == t[1 + k]);
            }
            assert(s.subrange(i + 1, i + 1 + esc.len()) =~= esc) by {
                assert forall|k: int|
                    0 <= k < esc.len() implies s.subrange(i + 1, i + 1 + esc.len())[k]
                    == esc[k] by {
                    assert(s.subrange(i + 1, i + 1 + esc.len())[k] == s[i + 1 + k]);
                }
            }
            assert(t[t.len() - 1] == '"');
            assert(s[i + (t.len() - 1)] == t[t.len() - 1]);
            lemma_p_str_of_esc(cs, s, i + 1);
        },
        JVal::Arr(a) => {
            assert(s[i] == '[');
            let it = items_text(a);
            assert(t == seq!['['] + it + seq![']']);
            assert forall|k: int| 0 <= k < it.len() implies s[i + 1 + k] == it[k] by {
                assert(t[1 + k] == it[k]);
                assert(s[i + (1 + k)] == t[1 + k]);
            }
            assert(t[t.len() - 1] == ']');
            assert(s[i + (t.len() - 1)] == t[t.len() - 1]);
            assert(s[i + 1 + it.len()] == ']');
            if a.len() == 0 {
                assert(s[i + 1] == ']');
                assert(skip_ws(s, i + 1) == i + 1);
                assert(p_val(s, i) == Some((JVal::Arr(Seq::empty()), i + 2)));
                assert(a =~= Seq::<JVal>::empty());
            } else {
                assert(it[0] == jtext(a[0])[0]) by {
                    if a.len() == 1 {
                    } else {
                        assert(it == jtext(a[0]) + seq![','] + items_text(a.drop_first()));
                        lemma_jtext_head(a[0]);
                    }
                }
                lemma_jtext_head(a[0]);
                assert(s[i + 1] == it[0]);
                assert(!is_ws(s[i + 1]) && s[i + 1] != ']');
                assert(skip_ws(s, i + 1) == i + 1);
                assert(s.subrange(i + 1, i + 1 + it.len()) =~= it) by {
                    assert forall|k: int|
                        0 <= k < it.len() implies s.subrange(i + 1, i + 1 + it.len())[k]
                        == it[k] by {
                        assert(s.subrange(i + 1, i + 1 + it.len())[k] == s[i + 1 + k]);
                    }
                }
                lemma_p_items_of_text(a, s, i + 1);
                assert(p_val(s, i) == Some((JVal::Arr(a), e)));
            }
        },
        JVal::Obj(m) => {
            assert(s[i] == '{');
            let mt = members_text(m);
            assert(t == seq!['{'] + mt + seq!['}']);
            assert forall|k: int| 0 <= k < mt.len() implies s[i + 1 + k] == mt[k] by {
                assert(t[1 + k] == mt[k]);
                assert(s[i + (1 + k)] == t[1 + k]);
            }
            assert(t[t.len() - 1] == '}');
            assert(s[i + (t.len() - 1)] == t[t.len() - 1]);
            assert(s[i + 1 + mt.len()] == '}');
            if m.len() == 0 {
                assert(s[i + 1] == '}');
                assert(skip_ws(s, i + 1) == i + 1);
                assert(p_val(s, i) == Some((JVal::Obj(Seq::empty()), i + 2)));
                assert(m =~= Seq::<(Seq<char>, JVal)>::empty());
            } else {
                assert(mt.len() >= 1) by {
                    assert(member_text(m[0]) == str_text(m[0].0) + seq![':'] + jtext(m[0].1));
                    if m.len() == 1 {
                    } else {
                        assert(mt == member_text(m[0]) + seq![','] + members_text(
                            m.drop_first(),
                        ));
                    }
                }
                assert(mt[0] == '"') by {
                    assert(member_text(m[0])[0] == '"');
                    if m.len() == 1 {
                    } else {
                        assert(mt == member_text(m[0]) + seq![','] + members_text(
                            m.drop_first(),
                        ));
                    }
                }
                assert(s[i + 1 + 0] == mt[0]);
                assert(!is_ws(s[i + 1]) && s[i + 1] != '}');
                assert(skip_ws(s, i + 1) == i + 1);
                assert(s.subrange(i + 1, i + 1 + mt.len()) =~= mt) by {
                    assert forall|k: int|
                        0 <= k < mt.len() implies s.subrange(i + 1, i + 1 + mt.len())[k]
                        == mt[k] by {
                        assert(s.subrange(i + 1, i + 1 + mt.len())[k] == s[i + 1 + k]);
                    }
                }
                lemma_p_members_of_text(m, s, i + 1);
                assert(p_val(s, i) == Some((JVal::Obj(m), e)));
            }
        },
    }
}

/// Companion to `lemma_parse_of_text` for a non-empty element list followed
/// by its closing bracket.
proof fn lemma_p_items_of_text(a: Seq<JVal>, s: Seq<char>, i: int)
    requires
        a.len() >= 1,
        forall|k: int| 0 <= k < a.len() ==> wf_jval(#[trigger] a[k]),
        0 <= i,
        i + items_text(a).len() + 1 <= s.len(),
        s.subrange(i, i + items_text(a).len()) == items_text(a),
        s[i + items_text(a).len()] == ']',
    ensures
        p_items(s, i) == Some((a, i + items_text(a).len() + 1)),
    decreases a, 1int,
{
    let t = items_text(a);
    assert forall|k: int| 0 <= k < t.len() implies s[i + k] == t[k] by {
        assert(s.subrange(i, i + t.len())[k] == s[i + k]);
    }
    if a.len() == 1 {
        assert(t == jtext(a[0]));
        assert(decreases_to!(a => a[0]));
        lemma_parse_of_text(a[0], s, i);
        let j = i + t.len();
        assert(skip_ws(s, j) == j);
        assert(p_items(s, i) == Some((seq![a[0]], j + 1)));
        assert(seq![a[0]] =~= a);
    } else {
        let t0 = jtext(a[0]);
        let rest = a.drop_first();
        let tr = items_text(rest);
        assert(t == t0 + seq![','] + tr);
        assert forall|k: int| 0 <= k < t0.len() implies t[k] == t0[k] by {
            assert((t0 + seq![','])[k] == t0[k]);
        }
        assert(t[t0.len() as int] == ',') by {
            assert((t0 + seq![','])[t0.len() as int] == ',');
        }
        assert forall|k: int| 0 <= k < tr.len() implies t[t0.len() + 1 + k] == tr[k] by {}
        assert(s.subrange(i, i + t0.len()) =~= t0) by {
            assert forall|k: int| 0 <= k < t0.len() implies s.subrange(i, i + t0.len())[k]
                == t0[k] by {
                assert(s.subrange(i, i + t0.len())[k] == s[i + k]);
            }
        }
        assert(s[i + t0.len()] == ',');
        assert(decreases_to!(a => a[0]));
        lemma_parse_of_text(a[0], s, i);
        let j = i + t0.len();
        assert(skip_ws(s, j) == j);
        let m = j + 1;
        assert(rest[0] == a[1]);
        lemma_jtext_head(a[1]);
        assert(tr.len() >= 1 && tr[0] == jtext(rest[0])[0]) by {
            if rest.len() == 1 {
            } else {
                assert(tr == jtext(rest[0]) + seq![','] + items_text(rest.drop_first()));
            }
        }
        let tc = t0 + seq![','];
        assert(t == tc + tr);
        assert(tc.len() == t0.len() + 1);
        assert(t[tc.len() as int + 0] == (tc + tr)[tc.len() as int + 0]);
        assert((tc + tr)[tc.len() as int + 0] == tr[0]);
        assert(s[i + (tc.len() + 0)] == t[tc.len() as int + 0]);
        assert(s[m] == tr[0]);
        assert(!is_ws(s[m]));
        assert(skip_ws(s, m) == m);
        assert(s.subrange(m, m + tr.len()) =~= tr) by {
            assert forall|k: int| 0 <= k < tr.len() implies s.subrange(m, m + tr.len())[k]
                == tr[k] by {
                assert(s.subrange(m, m + tr.len())[k] == s[m + k]);
                assert(s[i + (t0.len() + 1 + k)] == t[t0.len() + 1 + k]);
            }
        }
        assert(m + tr.len() == i + t.len());
        assert(s[m + tr.len()] == ']');
        lemma_p_items_of_text(rest, s, m);
        assert(p_items(s, i) == Some((seq![a[0]] + rest, i + t.len() + 1)));
        assert(seq![a[0]] + rest =~= a);
    }
}

/// Companion to `lemma_parse_of_text` for a non-empty member list followed
/// by its closing brace.
proof fn lemma_p_members_of_text(m: Seq<(Seq<char>, JVal)>, s: Seq<char>, i: int)
    requires
        m.len() >= 1,
        forall|k: int| 0 <= k < m.len() ==> wf_jval((#[trigger] m[k]).1),
        0 <= i,
        i + members_text(m).len() + 1 <= s.len(),
        s.subrange(i, i + members_text(m).len()) == members_text(m),
        s[i + members_text(m).len()] == '}',
    ensures
        p_members(s, i) == Some((m, i + members_text(m).len() + 1)),
    decreases m, 1int,
{
    let t = members_text(m);
    assert forall|k: int| 0 <= k < t.len() implies s[i + k] == t[k] by {
        assert(s.subrange(i, i + t.len())[k] == s[i + k]);
    }
    let kv = m[0];
    let t0 = member_text(kv);
    let st = str_text(kv.0);
    let vt = jtext(kv.1);
    assert(t0 == st + seq![':'] + vt);
    assert forall|k: int| 0 <= k < t0.len() implies t[k] == t0[k] by {
        if m.len() == 1 {
        } else {
            assert(t == t0 + seq![','] + members_text(m.drop_first()));
            assert((t0 + seq![','])[k] == t0[k]);
        }
    }
    // the key string
    let esc = esc_seq(kv.0);
    assert(st == seq!['"'] + esc + seq!['"']);
    assert(t0[0] == '"');
    assert(s[i + 0] == t[0]);
    assert(s[i] == '"');
    assert forall|k: int| 0 <= k < esc.len() implies s[i + 1 + k] == esc[k] by {
        assert(st[1 + k] == esc[k]);
        assert((st + seq![':'])[1 + k] == st[1 + k]);
        assert(t0[1 + k] == st[1 + k]);
        assert(s[i + (1 + k)] == t[1 + k]);
    }
    assert(s.subrange(i + 1, i + 1 + esc.len()) =~= esc) by {
        assert forall|k: int| 0 <= k < esc.len() implies s.subrange(i + 1, i + 1 + esc.len())[k]
            == esc[k] by {
            assert(s.subrange(i + 1, i + 1 + esc.len())[k] == s[i + 1 + k]);
        }
    }
    assert(st[st.len() - 1] == '"');
    assert(t0[st.len() - 1] == st[st.len() - 1]) by {
        assert((st + seq![':'])[st.len() - 1] == st[st.len() - 1]);
    }
    assert(s[i + (st.len() - 1)] == t[st.len() - 1]);
    assert(s[i + 1 + esc.len()] == '"');
    lemma_p_str_of_esc(kv.0, s, i + 1);
    let j = i + st.len();
    assert(p_str(s, i + 1) == Some((kv.0, j)));
    // the colon
    assert(t0[st.len() as int] == ':') by {
        assert((st + seq![':'])[st.len() as int] == ':');
    }
    assert(s[i + st.len()] == t[st.len() as int]);
    assert(s[j] == ':');
    assert(skip_ws(s, j) == j);
    // the value
    let vstart = j + 1;
    assert forall|k: int| 0 <= k < vt.len() implies s[vstart + k] == vt[k] by {
        assert(t0[st.len() + 1 + k] == vt[k]);
        assert(s[i + (st.len() + 1 + k)] == t[st.len() + 1 + k]);
    }
    assert(s.subrange(vstart, vstart + vt.len()) =~= vt) by {
        assert forall|k: int| 0 <= k < vt.len() implies s.subrange(vstart, vstart + vt.len())[k]
            == vt[k] by {
            assert(s.subrange(vstart, vstart + vt.len())[k] == s[vstart + k]);
        }
    }
    let vend = vstart + vt.len();
    assert(vend == i + t0.len());
    assert(decreases_to!(m => m[0]));
    assert(decreases_to!(kv => kv.1));
    if m.len() == 1 {
        assert(t == t0);
        assert(s[vend] == '}');
        lemma_parse_of_text(kv.1, s, vstart);
        assert(skip_ws(s, vend) == vend);
        assert(p_members(s, i) == Some((seq![kv], vend + 1)));
        assert(seq![kv] =~= m);
    } else {
        let rest = m.drop_first();
        let tr = members_text(rest);
        assert(t == t0 + seq![','] + tr);
        assert(t[t0.len() as int] == ',') by {
            assert((t0 + seq![','])[t0.len() as int] == ',');
        }
        assert(s[i + t0.len()] == ',');
        assert(s[vend] == ',');
        lemma_parse_of_text(kv.1, s, vstart);
        assert(skip_ws(s, vend) == vend);
        let m2 = vend + 1;
        assert forall|k: int| 0 <= k < tr.len() implies s[m2 + k] == tr[k] by {
            assert(t[t0.len() + 1 + k] == tr[k]);
            assert(s[i + (t0.len() + 1 + k)] == t[t0.len() + 1 + k]);
        }
        assert(tr[0] == '"') by {
            assert(member_text(rest[0])[0] == '"');
            if rest.len() == 1 {
            } else {
                assert(tr == member_text(rest[0]) + seq![','] + members_text(
                    rest.drop_first(),
                ));
            }
        }
        assert(tr.len() >= 1) by {
            assert(member_text(rest[0]) == str_text(rest[0].0) + seq![':'] + jtext(rest[0].1));
            if rest.len() == 1 {
            } else {
                assert(tr == member_text(rest[0]) + seq![','] + members_text(
                    rest.drop_first(),
                ));
            }
        }
        assert(s[m2 + 0] == tr[0]);
        assert(s[m2] == '"');
        assert(skip_ws(s, m2) == m2);
        assert(s.subrange(m2, m2 + tr.len()) =~= tr) by {
            assert forall|k: int| 0 <= k < tr.len() implies s.subrange(m2, m2 + tr.len())[k]
                == tr[k] by {
                assert(s.subrange(m2, m2 + tr.len())[k] == s[m2 + k]);
            }
        }
        assert(m2 + tr.len() == i + t.len());
        assert(s[m2 + tr.len()] == '}');
        lemma_p_members_of_text(rest, s, m2);
        assert(p_members(s, i) == Some((seq![kv] + rest, i + t.len() + 1)));
        assert(seq![kv] + rest =~= m);
    }
}

/// Round trip: the canonical text of a well-formed value parses back to
/// exactly that value. Re-serializing the parse therefore reproduces the
/// text byte for byte.
pub proof fn lemma_canonical_round_trip(v: JVal)
    requires
        wf_jval(v),
    ensures
        parse_text(jtext(v)) == Some(v),
{
    let s = jtext(v);
    lemma_jtext_head(v);
    assert(skip_ws(s, 0) == 0);
    assert(s.subrange(0, s.len() as int) =~= s);
    lemma_parse_of_text(v, s, 0);
    assert(skip_ws(s, s.len() as int) == s.len());
}

// ---------------------------------------------------------------------------
// Bridges between `String` and character vectors, and field access
// ---------------------------------------------------------------------------
/// The characters of a string slice, as a vector.
pub fn str_to_chars(s: &str) -> (v: Vec<char>)
    ensures
        v@ == s@,
{
    let n: usize = s.unicode_len();
    let mut v: Vec<char> = Vec::new();
    for i in 0..n
        invariant
            n == s@.len(),
            v@ == s@.take(i as int),
    {
        let c = s.get_char(i);
        v.push(c);
        proof {
            assert(v@ =~= s@.take(i + 1));
        }
    }
    proof {
        assert(s@.take(n as int) =~= s@);
    }
    v
}

/// Relies on String: FromIterator<char>: collecting yields a string holding
/// exactly the characters of the iterator, in order.
#[verifier::external_body]
pub fn chars_to_string(v: &Vec<char>) -> (s: String)
    ensures
        s@ == v@,
{
    v.iter().collect()
}

/// First value bound to `key`, if the members hold one.
pub open spec fn obj_lookup(m: Seq<(Seq<char>, JVal)>, key: Seq<char>) -> Option<JVal>
    decreases m.len(),
{
    if m.len() == 0 {
        None
    } else if m[0].0 == key {
        Some(m[0].1)
    } else {
        obj_lookup(m.drop_first(), key)
    }
}

/// What `Json::get` returns: a member lookup on objects, nothing elsewhere.
pub open spec fn spec_get(v: JVal, key: Seq<char>) -> Option<JVal> {
    match v {
        JVal::Obj(m) => obj_lookup(m, key),
        _ => None,
    }
}

fn chars_eq_str(a: &Vec<char>, k: &str) -> (r: bool)
    ensures
        r == (a@ == k@),
{
    let n: usize = k.unicode_len();
    if a.len() != n {
        proof {
            assert(a@.len() != k@.len());
        }
        false
    } else {
        let mut i: usize = 0;
        while i < n
            invariant
                0 <= i <= n,
                n == k@.len(),
                n == a@.len(),
                forall|x: int| 0 <= x < i ==> a@[x] == k@[x],
            decreases n - i,
        {
            if a[i] != k.get_char(i) {
                return false;
            }
            i = i + 1;
        }
        proof {
            assert(a@ =~= k@);
        }
        true
    }
}

/// Character-for-character equality of two string slices.
pub fn str_eq(a: &str, b: &str) -> (r: bool)
    ensures
        r == (a@ == b@),
{
    let n: usize = a.unicode_len();
    let m: usize = b.unicode_len();
    if n != m {
        proof {
            assert(a@.len() != b@.len());
        }
        false
    } else {
        let mut i: usize = 0;
        while i < n
            invariant
                0 <= i <= n,
                n == a@.len(),
                n == b@.len(),
                forall|x: int| 0 <= x < i ==> a@[x] == b@[x],
            decreases n - i,
        {
            if a.get_char(i) != b.get_char(i) {
                return false;
            }
            i = i + 1;
        }
        proof {
            assert(a@ =~= b@);
        }
        true
    }
}

impl Json {
    /// Member lookup: `Some` exactly when this is an object with the key.
    pub fn get(&self, key: &str) -> (r: Option<&Json>)
        ensures
            r is Some <==> spec_get(self@, key@) is Some,
            r matches Some(j) ==> spec_get(self@, key@) == Some(j@),
    {
        match self {
            Json::Obj(m) => {
                proof {
                    lemma_view_json_members(m@);
                }
                let ghost vm = view_json_members(m@);
                let n: usize = m.len();
                let mut i: usize = 0;
                proof {
                    assert(vm.subrange(0, n as int) =~= vm);
                }
                while i < n
                    invariant
                        0 <= i <= n,
                        n == m@.len(),
                        vm == view_json_members(m@),
                        self@ == JVal::Obj(vm),
                        vm.len() == n,
                        forall|k: int|
                            0 <= k < n ==> vm[k] == ((#[trigger] m@[k]).0@, view_json(m@[k].1)),
                        obj_lookup(vm, key@) == obj_lookup(vm.subrange(i as int, n as int), key@),
                    decreases n - i,
                {
                    let ghost tail = vm.subrange(i as int, n as int);
                    proof {
                        assert(tail.len() == n - i);
                        assert(tail[0] == vm[i as int]);
                        assert(vm[i as int] == (m@[i as int].0@, view_json(m@[i as int].1)));
                    }
                    if chars_eq_str(&m[i].0, key) {
                        proof {
                            assert(tail[0].0 == key@);
                            assert(obj_lookup(tail, key@) == Some(tail[0].1));
                            assert(tail[0].1 == view_json(m@[i as int].1));
                        }
                        return Some(&m[i].1);
                    }
                    proof {
                        assert(tail[0].0 != key@);
                        assert(obj_lookup(tail, key@) == obj_lookup(tail.drop_first(), key@));
                        assert(tail.drop_first() =~= vm.subrange(i + 1, n as int));
                    }
                    i = i + 1;
                }
                proof {
                    assert(vm.subrange(n as int, n as int).len() == 0);
                    assert(obj_lookup(vm.subrange(n as int, n as int), key@) is None);
                }
                None
            },
            _ => None,
        }
    }

    /// The characters of a string value.
    pub fn as_str(&self) -> (r: Option<&Vec<char>>)
        ensures
            r matches Some(s) ==> self@ == JVal::Str(s@),
            r is None ==> !(self@ is Str),
    {
        match self {
            Json::Str(s) => Some(s),
            _ => None,
        }
    }

    /// The integer held by a number value.
    pub fn as_int(&self) -> (r: Option<i64>)
        ensures
            r matches Some(i) ==> self@ == JVal::Int(i as int),
            r is None ==> !(self@ is Int),
    {
        match self {
            Json::Int(i) => Some(*i),
            _ => None,
        }
    }

    /// The boolean held by a boolean value.
    pub fn as_bool(&self) -> (r: Option<bool>)
        ensures
            r matches Some(b) ==> self@ == JVal::Bool(b),
            r is None ==> !(self@ is Bool),
    {
        match self {
            Json::Bool(b) => Some(*b),
            _ => None,
        }
    }

    /// The elements of an array value.
    pub fn as_array(&self) -> (r: Option<&Vec<Json>>)
        ensures
            r matches Some(a) ==> self@ == JVal::Arr(view_json_seq(a@)),
            r is None ==> !(self@ is Arr),
    {
        match self {
            Json::Arr(a) => Some(a),
            _ => None,
        }
    }

    /// Whether this value is `null`.
    pub fn is_null(&self) -> (r: bool)
        ensures
            r == (self@ is Null),
    {
        matches!(self, Json::Null)
    }

    /// A string value holding the characters of `s`.
    pub fn str_of(s: &str) -> (r: Json)
        ensures
            r@ == JVal::Str(s@),
    {
        Json::Str(str_to_chars(s))
    }

    /// The canonical text of this value, as a `String`.
    pub fn to_text(&self) -> (r: String)
        ensures
            r@ == jtext(self@),
    {
        let cs = self.to_chars();
        chars_to_string(&cs)
    }
}

// ---------------------------------------------------------------------------
// Deep copies
// ---------------------------------------------------------------------------
/// A fresh vector holding the same characters.
pub fn clone_chars(v: &Vec<char>) -> (r: Vec<char>)
    ensures
        r@ == v@,
{
    let n: usize = v.len();
    let mut r: Vec<char> = Vec::new();
    for i in 0..n
        invariant
            n == v@.len(),
            r@ == v@.take(i as int),
    {
        r.push(v[i]);
        proof {
            assert(r@ =~= v@.take(i + 1));
        }
    }
    proof {
        assert(v@.take(n as int) =~= v@);
    }
    r
}

fn clone_json_list(a: &Vec<Json>) -> (r: Vec<Json>)
    ensures
        r@.len() == a@.len(),
        forall|i: int| 0 <= i < a@.len() ==> (#[trigger] r@[i])@ == a@[i]@,
    decreases *a,
{
    let n: usize = a.len();
    let mut r: Vec<Json> = Vec::new();
    for i in 0..n
        invariant
            n == a@.len(),
            r@.len() == i,
            forall|k: int| 0 <= k < i ==> (#[trigger] r@[k])@ == a@[k]@,
    {
        let c = clone_json(&a[i]);
        r.push(c);
    }
    r
}

fn clone_json_members(m: &Vec<(Vec<char>, Json)>) -> (r: Vec<(Vec<char>, Json)>)
    ensures
        r@.len() == m@.len(),
        forall|i: int|
            0 <= i < m@.len() ==> (#[trigger] r@[i]).0@ == m@[i].0@ && r@[i].1@ == m@[i].1@,
    decreases *m,
{
    let n: usize = m.len();
    let mut r: Vec<(Vec<char>, Json)> = Vec::new();
    for i in 0..n
        invariant
            n == m@.len(),
            r@.len() == i,
            forall|k: int|
                0 <= k < i ==> (#[trigger] r@[k]).0@ == m@[k].0@ && r@[k].1@ == m@[k].1@,
    {
        let k = clone_chars(&m[i].0);
        let v = clone_json(&m[i].1);
        r.push((k, v));
    }
    r
}

/// A fresh value with the same model.
pub fn clone_json(j: &Json) -> (r: Json)
    ensures
        r@ == j@,
    decreases *j,
{
    match j {
        Json::Null => Json::Null,
        Json::Bool(b) => Json::Bool(*b),
        Json::Int(i) => Json::Int(*i),
        Json::FracNum(lex) => Json::FracNum(clone_chars(lex)),
        Json::Str(s) => Json::Str(clone_chars(s)),
        Json::Arr(a) => {
            let c = clone_json_list(a);
            let r = Json::Arr(c);
            proof {
                lemma_view_json_seq(c@);
                lemma_view_json_seq(a@);
                assert forall|k: int|
                    0 <= k < view_json_seq(c@).len() implies view_json_seq(c@)[k]
                    == view_json_seq(a@)[k] by {
                    assert(view_json_seq(c@)[k] == view_json(c@[k]));
                    assert(view_json_seq(a@)[k] == view_json(a@[k]));
                    assert((c@[k])@ == a@[k]@);
                }
                assert(view_json_seq(c@) =~= view_json_seq(a@));
            }
            r
        },
        Json::Obj(m) => {
            let c = clone_json_members(m);
            let r = Json::Obj(c);
            proof {
                lemma_view_json_members(c@);
                lemma_view_json_members(m@);
                assert forall|k: int|
                    0 <= k < view_json_members(c@).len() implies view_json_members(c@)[k]
                    == view_json_members(m@)[k] by {
                    assert(view_json_members(c@)[k] == (c@[k].0@, view_json(c@[k].1)));
                    assert(view_json_members(m@)[k] == (m@[k].0@, view_json(m@[k].1)));
                    assert((c@[k]).0@ == m@[k].0@ && c@[k].1@ == m@[k].1@);
                }
                assert(view_json_members(c@) =~= view_json_members(m@));
            }
            r
        },
    }
}

impl Clone for Json {
    fn clone(&self) -> (r: Self)
        ensures
            r@ == self@,
    {
        clone_json(self)
    }
}

// ---------------------------------------------------------------------------
// Object builders
// ---------------------------------------------------------------------------
/// An array value over the given elements.
pub fn arr_of(elems: Vec<Json>) -> (r: Json)
    ensures
        r@ == JVal::Arr(view_json_seq(elems@)),
{
    Json::Arr(elems)
}

/// An object with one member.
pub fn obj1(k0: &str, v0: Json) -> (r: Json)
    ensures
        r@ == JVal::Obj(seq![(k0@, v0@)]),
{
    let t0 = (str_to_chars(k0), v0);
    let ghost g0 = t0;
    let mut m: Vec<(Vec<char>, Json)> = Vec::new();
    m.push(t0);
    let r = Json::Obj(m);
    proof {
        lemma_view_json_members(m@);
        assert(m@[0] == g0);
        assert(view_json_members(m@) =~= seq![(k0@, view_json(g0.1))]);
    }
    r
}

/// An object with two members.
pub fn obj2(k0: &str, v0: Json, k1: &str, v1: Json) -> (r: Json)
    ensures
        r@ == JVal::Obj(seq![(k0@, v0@), (k1@, v1@)]),
{
    let t0 = (str_to_chars(k0), v0);
    let ghost g0 = t0;
    let t1 = (str_to_chars(k1), v1);
    let ghost g1 = t1;
    let mut m: Vec<(Vec<char>, Json)> = Vec::new();
    m.push(t0);
    m.push(t1);
    let r = Json::Obj(m);
    proof {
        lemma_view_json_members(m@);
        assert(m@[0] == g0);
        assert(m@[1] == g1);
        assert(view_json_members(m@) =~= seq![
            (k0@, view_json(g0.1)),
            (k1@, view_json(g1.1)),
        ]);
    }
    r
}

/// An object with three members.
pub fn obj3(k0: &str, v0: Json, k1: &str, v1: Json, k2: &str, v2: Json) -> (r: Json)
    ensures
        r@ == JVal::Obj(seq![(k0@, v0@), (k1@, v1@), (k2@, v2@)]),
{
    let t0 = (str_to_chars(k0), v0);
    let ghost g0 = t0;
    let t1 = (str_to_chars(k1), v1);
    let ghost g1 = t1;
    let t2 = (str_to_chars(k2), v2);
    let ghost g2 = t2;
    let mut m: Vec<(Vec<char>, Json)> = Vec::new();
    m.push(t0);
    m.push(t1);
    m.push(t2);
    let r = Json::Obj(m);
    proof {
        lemma_view_json_members(m@);
        assert(m@[0] == g0);
        assert(m@[1] == g1);
        assert(m@[2] == g2);
        assert(view_json_members(m@) =~= seq![
            (k0@, view_json(g0.1)),
            (k1@, view_json(g1.1)),
            (k2@, view_json(g2.1)),
        ]);
    }
    r
}

/// An object with four members.
pub fn obj4(k0: &str, v0: Json, k1: &str, v1: Json, k2: &str, v2: Json, k3: &str, v3: Json) -> (r:
    Json)
    ensures
        r@ == JVal::Obj(seq![(k0@, v0@), (k1@, v1@), (k2@, v2@), (k3@, v3@)]),
{
    let t0 = (str_to_chars(k0), v0);
    let ghost g0 = t0;
    let t1 = (str_to_chars(k1), v1);
    let ghost g1 = t1;
    let t2 = (str_to_chars(k2), v2);
    let ghost g2 = t2;
    let t3 = (str_to_chars(k3), v3);
    let ghost g3 = t3;
    let mut m: Vec<(Vec<char>, Json)> = Vec::new();
    m.push(t0);
    m.push(t1);
    m.push(t2);
    m.push(t3);
    let r = Json::Obj(m);
    proof {
        lemma_view_json_members(m@);
        assert(m@[0] == g0);
        assert(m@[1] == g1);
        assert(m@[2] == g2);
        assert(m@[3] == g3);
        assert(view_json_members(m@) =~= seq![
            (k0@, view_json(g0.1)),
            (k1@, view_json(g1.1)),
            (k2@, view_json(g2.1)),
            (k3@, view_json(g3.1)),
        ]);
    }
    r
}

/// An object with six members.
pub fn obj6(
    k0: &str,
    v0: Json,
    k1: &str,
    v1: Json,
    k2: &str,
    v2: Json,
    k3: &str,
    v3: Json,
    k4: &str,
    v4: Json,
    k5: &str,
    v5: Json,
) -> (r: Json)
    ensures
        r@ == JVal::Obj(
            seq![(k0@, v0@), (k1@, v1@), (k2@, v2@), (k3@, v3@), (k4@, v4@), (k5@, v5@)],
        ),
{
    let t0 = (str_to_chars(k0), v0);
    let ghost g0 = t0;
    let t1 = (str_to_chars(k1), v1);
    let ghost g1 = t1;
    let t2 = (str_to_chars(k2), v2);
    let ghost g2 = t2;
    let t3 = (str_to_chars(k3), v3);
    let ghost g3 = t3;
    let t4 = (str_to_chars(k4), v4);
    let ghost g4 = t4;
    let t5 = (str_to_chars(k5), v5);
    let ghost g5 = t5;
    let mut m: Vec<(Vec<char>, Json)> = Vec::new();
    m.push(t0);
    m.push(t1);
    m.push(t2);
    m.push(t3);
    m.push(t4);
    m.push(t5);
    let r = Json::Obj(m);
    proof {
        lemma_view_json_members(m@);
        assert(m@[0] == g0);
        assert(m@[1] == g1);
        assert(m@[2] == g2);
        assert(m@[3] == g3);
        assert(m@[4] == g4);
        assert(m@[5] == g5);
        assert(view_json_members(m@) =~= seq![
            (k0@, view_json(g0.1)),
            (k1@, view_json(g1.1)),
            (k2@, view_json(g2.1)),
            (k3@, view_json(g3.1)),
            (k4@, view_json(g4.1)),
            (k5@, view_json(g5.1)),
        ]);
    }
    r
}

/// Parse a whole text given as a string slice.
pub fn parse_json_str(s: &str) -> (r: Option<Json>)
    ensures
        r is Some <==> parse_text(s@) is Some,
        r matches Some(j) ==> parse_text(s@) == Some(j@),
{
    let cs = str_to_chars(s);
    parse_json_chars(&cs)
}

} // verus!
