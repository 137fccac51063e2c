//! The wire format: a message is carried on the broker as a JSON envelope
//! with a fixed shape. The encoder and decoder below are verified against
//! the specification-level grammar in this module.
//!
//! The maps of an envelope carry scalar values only (see [`Value`]): a
//! payload whose `metadata`, `params`, `retval` or `extra` holds a nested
//! object, an array or a non-integer number is refused at decode, like any
//! other departure from the canonical form.

use vstd::prelude::*;

use crate::errors::{ErrorInfo, ErrorInfoV};
use crate::messages::{Message, MessageV};
use crate::results::{ExecResult, ExecResultV};
use crate::value::{ents_view, Entry, KvMap, Value, ValueV};
use crate::errors::KserErrors;

verus! {

/// Relies on `String: FromIterator<char>` via Iterator::collect: builds the
/// string holding exactly the given characters.
#[verifier::external_body]
pub(crate) fn chars_to_string(v: &Vec<char>) -> (r: String)
    ensures
        r@ == v@,
{
    v.iter().collect()
}

/// Copies the characters of a string slice into a vector.
pub(crate) fn str_to_chars(s: &str) -> (v: Vec<char>)
    ensures
        v@ == s@,
{
    let n = s.unicode_len();
    let mut v: Vec<char> = Vec::new();
    let mut i: usize = 0;
    while i < n
        invariant
            i <= n,
            n == s@.len(),
            v@ =~= s@.take(i as int),
        decreases n - i,
    {
        v.push(s.get_char(i));
        i += 1;
        proof {
            assert(v@ =~= s@.take(i as int));
        }
    }
    proof {
        assert(s@.take(n as int) =~= s@);
    }
    v
}

// ---------------------------------------------------------------------------
// The grammar: specification-level encoders.
// ---------------------------------------------------------------------------

/// Whether `c` is a decimal digit.
pub open spec fn is_digit(c: char) -> bool {
    '0' <= c <= '9'
}

/// The digit character for `n` (0 to 9).
pub open spec fn digit_char(n: int) -> char {
    if n == 0 {
        '0'
    } else if n == 1 {
        '1'
    } else if n == 2 {
        '2'
    } else if n == 3 {
        '3'
    } else if n == 4 {
        '4'
    } else if n == 5 {
        '5'
    } else if n == 6 {
        '6'
    } else if n == 7 {
        '7'
    } else if n == 8 {
        '8'
    } else {
        '9'
    }
}

/// The numeric value of a digit character.
pub open spec fn digit_val(c: char) -> int {
    c as int - '0' as int
}

/// The decimal form of a natural number, most significant digit first.
pub open spec fn dec_nat(n: nat) -> Seq<char>
    decreases n,
{
    if n < 10 {
        seq![digit_char(n as int)]
    } else {
        dec_nat(n / 10) + seq![digit_char((n % 10) as int)]
    }
}

/// The decimal form of an integer: a minus sign for negatives.
pub open spec fn enc_int(i: int) -> Seq<char> {
    if i < 0 {
        seq!['-'] + dec_nat((-i) as nat)
    } else {
        dec_nat(i as nat)
    }
}

/// The escaped form of one character inside a JSON string.
pub open spec fn esc_char(c: char) -> Seq<char> {
    if c == '"' {
        seq!['\\', '"']
    } else if c == '\\' {
        seq!['\\', '\\']
    } else if c == '\n' {
        seq!['\\', 'n']
    } else if c == '\t' {
        seq!['\\', 't']
    } else if c == '\r' {
        seq!['\\', 'r']
    } else {
        seq![c]
    }
}

/// The escaped form of a string's characters.
pub open spec fn esc(s: Seq<char>) -> Seq<char>
    decreases s.len(),
{
    if s.len() == 0 {
        Seq::empty()
    } else {
        esc_char(s[0]) + esc(s.drop_first())
    }
}

/// A quoted, escaped JSON string.
pub open spec fn enc_str(s: Seq<char>) -> Seq<char> {
    seq!['"'] + esc(s) + seq!['"']
}

/// The `null` literal.
pub open spec fn lit_null() -> Seq<char> {
    seq!['n', 'u', 'l', 'l']
}

/// The encoded form of a scalar value.
pub open spec fn enc_value(v: ValueV) -> Seq<char> {
    match v {
        ValueV::Null => lit_null(),
        ValueV::Bool(b) => if b {
            seq!['t', 'r', 'u', 'e']
        } else {
            seq!['f', 'a', 'l', 's', 'e']
        },
        ValueV::Int(i) => enc_int(i),
        ValueV::Str(s) => enc_str(s),
    }
}

/// One `"key":value` pair.
pub open spec fn enc_entry(e: (Seq<char>, ValueV)) -> Seq<char> {
    enc_str(e.0) + seq![':'] + enc_value(e.1)
}

/// The comma-led continuation of an entry list.
pub open spec fn enc_rest(s: Seq<(Seq<char>, ValueV)>) -> Seq<char>
    decreases s.len(),
{
    if s.len() == 0 {
        Seq::empty()
    } else {
        seq![','] + enc_entry(s[0]) + enc_rest(s.drop_first())
    }
}

/// A comma-separated entry list.
pub open spec fn enc_entries(s: Seq<(Seq<char>, ValueV)>) -> Seq<char> {
    if s.len() == 0 {
        Seq::empty()
    } else {
        enc_entry(s[0]) + enc_rest(s.drop_first())
    }
}

/// A JSON object holding the given entries in order.
pub open spec fn enc_map(s: Seq<(Seq<char>, ValueV)>) -> Seq<char> {
    seq!['{'] + enc_entries(s) + seq!['}']
}

/// An optional string: `null` when absent.
pub open spec fn enc_opt_str(s: Option<Seq<char>>) -> Seq<char> {
    match s {
        Some(t) => enc_str(t),
        None => lit_null(),
    }
}

/// An optional object: `null` when absent.
pub open spec fn enc_opt_map(s: Option<Seq<(Seq<char>, ValueV)>>) -> Seq<char> {
    match s {
        Some(m) => enc_map(m),
        None => lit_null(),
    }
}

/// The key part `{"uuid":` opening the message and result objects.
pub open spec fn l_uuid() -> Seq<char> {
    seq!['{', '"', 'u', 'u', 'i', 'd', '"', ':']
}

/// The key part `,"entrypoint":`.
pub open spec fn l_entrypoint() -> Seq<char> {
    seq![',', '"', 'e', 'n', 't', 'r', 'y', 'p', 'o', 'i', 'n', 't', '"', ':']
}

/// The key part `,"metadata":`.
pub open spec fn l_metadata() -> Seq<char> {
    seq![',', '"', 'm', 'e', 't', 'a', 'd', 'a', 't', 'a', '"', ':']
}

/// The key part `,"params":`.
pub open spec fn l_params() -> Seq<char> {
    seq![',', '"', 'p', 'a', 'r', 'a', 'm', 's', '"', ':']
}

/// The key part `,"result":`.
pub open spec fn l_result() -> Seq<char> {
    seq![',', '"', 'r', 'e', 's', 'u', 'l', 't', '"', ':']
}

/// The key part `,"stdout":`.
pub open spec fn l_stdout() -> Seq<char> {
    seq![',', '"', 's', 't', 'd', 'o', 'u', 't', '"', ':']
}

/// The key part `,"retval":`.
pub open spec fn l_retval() -> Seq<char> {
    seq![',', '"', 'r', 'e', 't', 'v', 'a', 'l', '"', ':']
}

/// The key part `,"error":`.
pub open spec fn l_error() -> Seq<char> {
    seq![',', '"', 'e', 'r', 'r', 'o', 'r', '"', ':']
}

/// The key part `{"code":` opening the error object.
pub open spec fn l_code() -> Seq<char> {
    seq!['{', '"', 'c', 'o', 'd', 'e', '"', ':']
}

/// The key part `,"msgid":`.
pub open spec fn l_msgid() -> Seq<char> {
    seq![',', '"', 'm', 's', 'g', 'i', 'd', '"', ':']
}

/// The key part `,"message":`.
pub open spec fn l_message() -> Seq<char> {
    seq![',', '"', 'm', 'e', 's', 's', 'a', 'g', 'e', '"', ':']
}

/// The key part `,"extra":`.
pub open spec fn l_extra() -> Seq<char> {
    seq![',', '"', 'e', 'x', 't', 'r', 'a', '"', ':']
}

/// The encoded error object.
pub open spec fn enc_error(e: ErrorInfoV) -> Seq<char> {
    l_code() + enc_int(e.code as int) + l_msgid() + enc_str(e.msgid) + l_message() + enc_str(
        e.message,
    ) + l_extra() + enc_opt_map(e.extra) + seq!['}']
}

/// An optional error object: `null` when absent.
pub open spec fn enc_opt_err(e: Option<ErrorInfoV>) -> Seq<char> {
    match e {
        Some(ei) => enc_error(ei),
        None => lit_null(),
    }
}

/// The encoded result object.
pub open spec fn enc_result(r: ExecResultV) -> Seq<char> {
    l_uuid() + enc_str(r.uuid) + l_stdout() + enc_opt_str(r.stdout) + l_retval() + enc_map(
        r.retval,
    ) + l_error() + enc_opt_err(r.error) + seq!['}']
}

/// The encoded message envelope, the wire format of this framework.
pub open spec fn enc_message(m: MessageV) -> Seq<char> {
    l_uuid() + enc_str(m.uuid) + l_entrypoint() + enc_str(m.entrypoint) + l_metadata() + enc_map(
        m.metadata,
    ) + l_params() + enc_map(m.params) + l_result() + enc_result(m.result) + seq!['}']
}

// ---------------------------------------------------------------------------
// The executable encoder.
// ---------------------------------------------------------------------------

/// Escaping distributes over appending one character.
pub proof fn lemma_esc_push(s: Seq<char>, c: char)
    ensures
        esc(s.push(c)) == esc(s) + esc_char(c),
    decreases s.len(),
{
    if s.len() == 0 {
        assert(s.push(c).len() == 1);
        assert(s.push(c)[0] == c);
        assert(s.push(c).drop_first() =~= s);
        assert(esc(s.push(c)) == esc_char(c) + esc(s));
        assert(esc(s.push(c)) =~= esc(s) + esc_char(c));
    } else {
        assert(s.push(c)[0] == s[0]);
        assert(s.push(c).drop_first() =~= s.drop_first().push(c));
        lemma_esc_push(s.drop_first(), c);
        assert(esc(s.push(c)) == esc_char(s[0]) + esc(s.drop_first().push(c)));
        assert(esc(s.push(c)) =~= esc(s) + esc_char(c));
    }
}

/// The comma-led entry list grows at its end by one comma-led entry.
pub proof fn lemma_enc_rest_push(s: Seq<(Seq<char>, ValueV)>, e: (Seq<char>, ValueV))
    ensures
        enc_rest(s.push(e)) == enc_rest(s) + seq![','] + enc_entry(e),
    decreases s.len(),
{
    if s.len() == 0 {
        assert(s.push(e).len() == 1);
        assert(s.push(e)[0] == e);
        assert(s.push(e).drop_first() =~= s);
        assert(enc_rest(s.push(e)) == seq![','] + enc_entry(e) + enc_rest(s));
        assert(enc_rest(s.push(e)) =~= enc_rest(s) + seq![','] + enc_entry(e));
    } else {
        assert(s.push(e)[0] == s[0]);
        assert(s.push(e).drop_first() =~= s.drop_first().push(e));
        lemma_enc_rest_push(s.drop_first(), e);
        assert(enc_rest(s.push(e)) == seq![','] + enc_entry(s[0]) + enc_rest(
            s.drop_first().push(e),
        ));
        assert(enc_rest(s.push(e)) =~= enc_rest(s) + seq![','] + enc_entry(e));
    }
}

/// The entry list grows at its end by an entry, comma-led unless first.
pub proof fn lemma_enc_entries_push(s: Seq<(Seq<char>, ValueV)>, e: (Seq<char>, ValueV))
    ensures
        s.len() == 0 ==> enc_entries(s.push(e)) == enc_entry(e),
        s.len() > 0 ==> enc_entries(s.push(e)) == enc_entries(s) + seq![','] + enc_entry(e),
{
    if s.len() == 0 {
        assert(s.push(e)[0] == e);
        assert(s.push(e).drop_first() =~= Seq::<(Seq<char>, ValueV)>::empty());
        assert(enc_entries(s.push(e)) =~= enc_entry(e));
    } else {
        assert(s.push(e)[0] == s[0]);
        assert(s.push(e).drop_first() =~= s.drop_first().push(e));
        lemma_enc_rest_push(s.drop_first(), e);
        assert(enc_entries(s.push(e)) =~= enc_entries(s) + seq![','] + enc_entry(e));
    }
}

/// The digit character for a value below ten.
fn digit_of(n: u64) -> (c: char)
    requires
        n < 10,
    ensures
        c == digit_char(n as int),
{
    match n {
        0 => '0',
        1 => '1',
        2 => '2',
        3 => '3',
        4 => '4',
        5 => '5',
        6 => '6',
        7 => '7',
        8 => '8',
        _ => '9',
    }
}

/// Appends the decimal form of `n`.
fn push_dec_u64(out: &mut Vec<char>, n: u64)
    ensures
        final(out)@ == old(out)@ + dec_nat(n as nat),
    decreases n,
{
    if n < 10 {
        out.push(digit_of(n));
        proof {
            assert(final(out)@ =~= old(out)@ + dec_nat(n as nat));
        }
    } else {
        push_dec_u64(out, n / 10);
        out.push(digit_of(n % 10));
        proof {
            assert(final(out)@ =~= old(out)@ + dec_nat(n as nat));
        }
    }
}

/// Appends the decimal form of `i`, sign included.
fn push_int(out: &mut Vec<char>, i: i64)
    ensures
        final(out)@ == old(out)@ + enc_int(i as int),
{
    if i < 0 {
        out.push('-');
        let mag: u64 = if i == i64::MIN {
            9223372036854775808u64
        } else {
            (-i) as u64
        };
        proof {
            assert(mag as nat == (-(i as int)) as nat);
        }
        push_dec_u64(out, mag);
        proof {
            assert(final(out)@ =~= old(out)@ + enc_int(i as int));
        }
    } else {
        push_dec_u64(out, i as u64);
    }
}

/// The decimal text of an integer.
pub fn int_to_string(i: i64) -> (r: String)
    ensures
        r@ == enc_int(i as int),
{
    let mut out: Vec<char> = Vec::new();
    push_int(&mut out, i);
    chars_to_string(&out)
}

/// Appends the escaped form of one character.
fn push_esc_char(out: &mut Vec<char>, c: char)
    ensures
        final(out)@ == old(out)@ + esc_char(c),
{
    if c == '"' {
        out.push('\\');
        out.push('"');
    } else if c == '\\' {
        out.push('\\');
        out.push('\\');
    } else if c == '\n' {
        out.push('\\');
        out.push('n');
    } else if c == '\t' {
        out.push('\\');
        out.push('t');
    } else if c == '\r' {
        out.push('\\');
        out.push('r');
    } else {
        out.push(c);
    }
    proof {
        assert(final(out)@ =~= old(out)@ + esc_char(c));
    }
}

/// Appends a quoted, escaped JSON string.
fn push_str_enc(out: &mut Vec<char>, s: &str)
    ensures
        final(out)@ == old(out)@ + enc_str(s@),
{
    out.push('"');
    let n = s.unicode_len();
    let mut i: usize = 0;
    proof {
        assert(esc(s@.take(0)) =~= Seq::<char>::empty());
        assert(out@ =~= old(out)@ + seq!['"'] + esc(s@.take(0)));
    }
    while i < n
        invariant
            i <= n,
            n == s@.len(),
            out@ == old(out)@ + seq!['"'] + esc(s@.take(i as int)),
        decreases n - i,
    {
        let c = s.get_char(i);
        push_esc_char(out, c);
        proof {
            assert(s@.take(i + 1) =~= s@.take(i as int).push(s@[i as int]));
            lemma_esc_push(s@.take(i as int), s@[i as int]);
            assert(out@ =~= old(out)@ + seq!['"'] + esc(s@.take(i + 1)));
        }
        i += 1;
    }
    out.push('"');
    proof {
        assert(s@.take(n as int) =~= s@);
        assert(final(out)@ =~= old(out)@ + enc_str(s@));
    }
}

/// Appends the `null` literal.
fn push_null(out: &mut Vec<char>)
    ensures
        final(out)@ == old(out)@ + lit_null(),
{
    out.push('n');
    out.push('u');
    out.push('l');
    out.push('l');
    proof {
        assert(final(out)@ =~= old(out)@ + lit_null());
    }
}

/// Appends the encoded form of a scalar value.
fn push_value(out: &mut Vec<char>, v: &Value)
    ensures
        final(out)@ == old(out)@ + enc_value(v@),
{
    match v {
        Value::Null => {
            push_null(out);
        },
        Value::Bool(b) => {
            if *b {
                out.push('t');
                out.push('r');
                out.push('u');
                out.push('e');
            } else {
                out.push('f');
                out.push('a');
                out.push('l');
                out.push('s');
                out.push('e');
            }
            proof {
                assert(final(out)@ =~= old(out)@ + enc_value(v@));
            }
        },
        Value::Int(i) => {
            push_int(out, *i);
        },
        Value::Str(s) => {
            push_str_enc(out, s.as_str());
        },
    }
}

/// Appends the object form of a map's entries.
fn push_map(out: &mut Vec<char>, m: &crate::value::KvMap)
    ensures
        final(out)@ == old(out)@ + enc_map(m@),
{
    out.push('{');
    let n = m.entries.len();
    let mut i: usize = 0;
    proof {
        assert(enc_entries(m@.take(0)) =~= Seq::<char>::empty());
        assert(out@ =~= old(out)@ + seq!['{'] + enc_entries(m@.take(0)));
    }
    while i < n
        invariant
            i <= n,
            n == m@.len(),
            m@.len() == m.entries@.len(),
            forall|j: int| 0 <= j < n ==> m@[j] == (m.entries@[j].key@, m.entries@[j].val@),
            out@ == old(out)@ + seq!['{'] + enc_entries(m@.take(i as int)),
        decreases n - i,
    {
        if i > 0 {
            out.push(',');
        }
        push_str_enc(out, m.entries[i].key.as_str());
        out.push(':');
        push_value(out, &m.entries[i].val);
        proof {
            assert(m@.take(i + 1) =~= m@.take(i as int).push(m@[i as int]));
            lemma_enc_entries_push(m@.take(i as int), m@[i as int]);
            assert(out@ =~= old(out)@ + seq!['{'] + enc_entries(m@.take(i + 1)));
        }
        i += 1;
    }
    out.push('}');
    proof {
        assert(m@.take(n as int) =~= m@);
        assert(final(out)@ =~= old(out)@ + enc_map(m@));
    }
}

/// Appends an optional string, `null` when absent.
fn push_opt_str(out: &mut Vec<char>, s: &Option<String>)
    ensures
        final(out)@ == old(out)@ + enc_opt_str(match s {
            Some(t) => Some(t@),
            None => None,
        }),
{
    match s {
        Some(t) => push_str_enc(out, t.as_str()),
        None => push_null(out),
    }
}

/// Appends the characters of a literal string slice.
fn push_lit(out: &mut Vec<char>, s: &str)
    ensures
        final(out)@ == old(out)@ + s@,
{
    let n = s.unicode_len();
    let mut i: usize = 0;
    while i < n
        invariant
            i <= n,
            n == s@.len(),
            out@ == old(out)@ + s@.take(i as int),
        decreases n - i,
    {
        out.push(s.get_char(i));
        proof {
            assert(s@.take(i + 1) =~= s@.take(i as int).push(s@[i as int]));
            assert(out@ =~= old(out)@ + s@.take(i + 1));
        }
        i += 1;
    }
    proof {
        assert(s@.take(n as int) =~= s@);
    }
}

/// Appends the object form of an error.
fn push_error(out: &mut Vec<char>, e: &crate::errors::ErrorInfo)
    ensures
        final(out)@ == old(out)@ + enc_error(e@),
{
    proof {
        reveal_strlit("{\"code\":");
        reveal_strlit(",\"msgid\":");
        reveal_strlit(",\"message\":");
        reveal_strlit(",\"extra\":");
        reveal_strlit("}");
        assert("{\"code\":"@ =~= l_code());
        assert(",\"msgid\":"@ =~= l_msgid());
        assert(",\"message\":"@ =~= l_message());
        assert(",\"extra\":"@ =~= l_extra());
        assert("}"@ =~= seq!['}']);
    }
    push_lit(out, "{\"code\":");
    push_int(out, e.code as i64);
    push_lit(out, ",\"msgid\":");
    push_str_enc(out, e.msgid.as_str());
    push_lit(out, ",\"message\":");
    push_str_enc(out, e.message.as_str());
    push_lit(out, ",\"extra\":");
    match e.extra {
        Some(ref m) => push_map(out, m),
        None => push_null(out),
    }
    push_lit(out, "}");
    proof {
        assert(e.code as i64 as int == e@.code as int);
        assert(final(out)@ =~= old(out)@ + enc_error(e@));
    }
}

/// Appends the object form of a result.
fn push_result(out: &mut Vec<char>, r: &crate::results::ExecResult)
    ensures
        final(out)@ == old(out)@ + enc_result(r@),
{
    proof {
        reveal_strlit("{\"uuid\":");
        reveal_strlit(",\"stdout\":");
        reveal_strlit(",\"retval\":");
        reveal_strlit(",\"error\":");
        reveal_strlit("}");
        assert("{\"uuid\":"@ =~= l_uuid());
        assert(",\"stdout\":"@ =~= l_stdout());
        assert(",\"retval\":"@ =~= l_retval());
        assert(",\"error\":"@ =~= l_error());
        assert("}"@ =~= seq!['}']);
    }
    push_lit(out, "{\"uuid\":");
    push_str_enc(out, r.uuid.as_str());
    push_lit(out, ",\"stdout\":");
    push_opt_str(out, &r.stdout);
    push_lit(out, ",\"retval\":");
    push_map(out, &r.retval);
    push_lit(out, ",\"error\":");
    match r.error {
        Some(ref e) => push_error(out, e),
        None => push_null(out),
    }
    push_lit(out, "}");
    proof {
        assert(final(out)@ =~= old(out)@ + enc_result(r@));
    }
}

/// Encodes a message to its wire envelope.
pub fn encode_message(msg: &crate::messages::Message) -> (r: String)
    ensures
        r@ == enc_message(msg@),
{
    proof {
        reveal_strlit("{\"uuid\":");
        reveal_strlit(",\"entrypoint\":");
        reveal_strlit(",\"metadata\":");
        reveal_strlit(",\"params\":");
        reveal_strlit(",\"result\":");
        reveal_strlit("}");
        assert("{\"uuid\":"@ =~= l_uuid());
        assert(",\"entrypoint\":"@ =~= l_entrypoint());
        assert(",\"metadata\":"@ =~= l_metadata());
        assert(",\"params\":"@ =~= l_params());
        assert(",\"result\":"@ =~= l_result());
        assert("}"@ =~= seq!['}']);
    }
    let mut out: Vec<char> = Vec::new();
    push_lit(&mut out, "{\"uuid\":");
    push_str_enc(&mut out, msg.uuid.as_str());
    push_lit(&mut out, ",\"entrypoint\":");
    push_str_enc(&mut out, msg.entrypoint.as_str());
    push_lit(&mut out, ",\"metadata\":");
    push_map(&mut out, &msg.metadata);
    push_lit(&mut out, ",\"params\":");
    push_map(&mut out, &msg.params);
    push_lit(&mut out, ",\"result\":");
    push_result(&mut out, &msg.result);
    push_lit(&mut out, "}");
    proof {
        assert(out@ =~= enc_message(msg@));
    }
    chars_to_string(&out)
}


// ---------------------------------------------------------------------------
// The grammar: specification-level parser. Each function yields the parsed
// item and the position just past it, or nothing when the text does not
// follow the canonical form.
// ---------------------------------------------------------------------------

/// Position past `lit` when the text carries it at `i`.
pub open spec fn p_lit(s: Seq<char>, i: int, lit: Seq<char>) -> Option<int> {
    if 0 <= i && i + lit.len() <= s.len() && s.subrange(i, i + lit.len()) == lit {
        Some(i + lit.len())
    } else {
        None
    }
}

/// The character an escape code stands for.
pub open spec fn unesc_char(c: char) -> Option<char> {
    if c == '"' {
        Some('"')
    } else if c == '\\' {
        Some('\\')
    } else if c == 'n' {
        Some('\n')
    } else if c == 't' {
        Some('\t')
    } else if c == 'r' {
        Some('\r')
    } else {
        None
    }
}

/// The content of a quoted string, read from just after its opening quote
/// up to and past its closing quote.
pub open spec fn p_string_body(s: Seq<char>, i: int) -> Option<(Seq<char>, int)>
    decreases s.len() - i,
{
    if i < 0 || i >= s.len() {
        None
    } else if s[i] == '"' {
        Some((Seq::empty(), i + 1))
    } else if s[i] == '\\' {
        if i + 1 < s.len() {
            match unesc_char(s[i + 1]) {
                Some(c) => match p_string_body(s, i + 2) {
                    Some(t) => Some((seq![c] + t.0, t.1)),
                    None => None,
                },
                None => None,
            }
        } else {
            None
        }
    } else {
        match p_string_body(s, i + 1) {
            Some(t) => Some((seq![s[i]] + t.0, t.1)),
            None => None,
        }
    }
}

/// A quoted string at `i`.
pub open spec fn p_string(s: Seq<char>, i: int) -> Option<(Seq<char>, int)> {
    if 0 <= i < s.len() && s[i] == '"' {
        p_string_body(s, i + 1)
    } else {
        None
    }
}

/// Position of the first non-digit at or after `i`.
pub open spec fn digits_end(s: Seq<char>, i: int) -> int
    decreases s.len() - i,
{
    if i < 0 || i >= s.len() {
        i
    } else if !is_digit(s[i]) {
        i
    } else {
        digits_end(s, i + 1)
    }
}

/// The number a run of digit characters denotes.
pub open spec fn digits_val(d: Seq<char>) -> int
    decreases d.len(),
{
    if d.len() == 0 {
        0
    } else {
        digits_val(d.drop_last()) * 10 + digit_val(d.last())
    }
}

/// Ten to the `n`.
pub open spec fn pow10(n: nat) -> int
    decreases n,
{
    if n == 0 {
        1
    } else {
        10 * pow10((n - 1) as nat)
    }
}

/// An integer at `i`: an optional minus sign and up to nineteen digits,
/// within the machine range.
pub open spec fn p_int(s: Seq<char>, i: int) -> Option<(int, int)> {
    if 0 <= i < s.len() {
        if s[i] == '-' {
            let e = digits_end(s, i + 1);
            let d = s.subrange(i + 1, e);
            if 1 <= d.len() <= 19 && -digits_val(d) >= i64::MIN as int {
                Some((-digits_val(d), e))
            } else {
                None
            }
        } else {
            let e = digits_end(s, i);
            let d = s.subrange(i, e);
            if 1 <= d.len() <= 19 && digits_val(d) <= i64::MAX as int {
                Some((digits_val(d), e))
            } else {
                None
            }
        }
    } else {
        None
    }
}

/// The `true` literal.
pub open spec fn lit_true() -> Seq<char> {
    seq!['t', 'r', 'u', 'e']
}

/// The `false` literal.
pub open spec fn lit_false() -> Seq<char> {
    seq!['f', 'a', 'l', 's', 'e']
}

/// A scalar value at `i`, told apart by its first character.
pub open spec fn p_value(s: Seq<char>, i: int) -> Option<(ValueV, int)> {
    if 0 <= i < s.len() {
        let c = s[i];
        if c == '"' {
            match p_string(s, i) {
                Some(t) => Some((ValueV::Str(t.0), t.1)),
                None => None,
            }
        } else if c == 'n' {
            match p_lit(s, i, lit_null()) {
                Some(j) => Some((ValueV::Null, j)),
                None => None,
            }
        } else if c == 't' {
            match p_lit(s, i, lit_true()) {
                Some(j) => Some((ValueV::Bool(true), j)),
                None => None,
            }
        } else if c == 'f' {
            match p_lit(s, i, lit_false()) {
                Some(j) => Some((ValueV::Bool(false), j)),
                None => None,
            }
        } else if c == '-' || is_digit(c) {
            match p_int(s, i) {
                Some(t) => Some((ValueV::Int(t.0), t.1)),
                None => None,
            }
        } else {
            None
        }
    } else {
        None
    }
}

/// One or more `"key":value` entries from `i`, ending past the closing
/// brace of their object.
pub open spec fn p_entries(s: Seq<char>, i: int) -> Option<(Seq<(Seq<char>, ValueV)>, int)>
    decreases s.len() - i,
{
    match p_string(s, i) {
        Some(kt) => {
            let k = kt.0;
            let j = kt.1;
            if 0 <= j < s.len() && s[j] == ':' {
                match p_value(s, j + 1) {
                    Some(vt) => {
                        let v = vt.0;
                        let j2 = vt.1;
                        if 0 <= j2 < s.len() && s[j2] == ',' {
                            if i <= j2 {
                                match p_entries(s, j2 + 1) {
                                    Some(rt) => Some((seq![(k, v)] + rt.0, rt.1)),
                                    None => None,
                                }
                            } else {
                                None
                            }
                        } else if 0 <= j2 < s.len() && s[j2] == '}' {
                            Some((seq![(k, v)], j2 + 1))
                        } else {
                            None
                        }
                    },
                    None => None,
                }
            } else {
                None
            }
        },
        None => None,
    }
}

/// An object at `i`: its entries, ending past its closing brace.
pub open spec fn p_map(s: Seq<char>, i: int) -> Option<(Seq<(Seq<char>, ValueV)>, int)> {
    if 0 <= i < s.len() && s[i] == '{' {
        if i + 1 < s.len() && s[i + 1] == '}' {
            Some((Seq::empty(), i + 2))
        } else {
            p_entries(s, i + 1)
        }
    } else {
        None
    }
}

/// An optional string at `i`: `null` or a quoted string.
pub open spec fn p_opt_str(s: Seq<char>, i: int) -> Option<(Option<Seq<char>>, int)> {
    if 0 <= i < s.len() && s[i] == 'n' {
        match p_lit(s, i, lit_null()) {
            Some(j) => Some((None, j)),
            None => None,
        }
    } else {
        match p_string(s, i) {
            Some(t) => Some((Some(t.0), t.1)),
            None => None,
        }
    }
}

/// An optional object at `i`: `null` or an object.
pub open spec fn p_opt_map(s: Seq<char>, i: int) -> Option<
    (Option<Seq<(Seq<char>, ValueV)>>, int),
> {
    if 0 <= i < s.len() && s[i] == 'n' {
        match p_lit(s, i, lit_null()) {
            Some(j) => Some((None, j)),
            None => None,
        }
    } else {
        match p_map(s, i) {
            Some(t) => Some((Some(t.0), t.1)),
            None => None,
        }
    }
}

/// An error object at `i`.
pub open spec fn p_error(s: Seq<char>, i: int) -> Option<(ErrorInfoV, int)> {
    match p_lit(s, i, l_code()) {
        Some(j0) => match p_int(s, j0) {
            Some(ct) => {
                if 0 <= ct.0 <= u16::MAX as int {
                    match p_lit(s, ct.1, l_msgid()) {
                        Some(j1) => match p_string(s, j1) {
                            Some(it) => match p_lit(s, it.1, l_message()) {
                                Some(j2) => match p_string(s, j2) {
                                    Some(mt) => match p_lit(s, mt.1, l_extra()) {
                                        Some(j3) => match p_opt_map(s, j3) {
                                            Some(xt) => match p_lit(s, xt.1, seq!['}']) {
                                                Some(j4) => Some((
                                                    ErrorInfoV {
                                                        code: ct.0 as u16,
                                                        msgid: it.0,
                                                        message: mt.0,
                                                        extra: xt.0,
                                                    },
                                                    j4,
                                                )),
                                                None => None,
                                            },
                                            None => None,
                                        },
                                        None => None,
                                    },
                                    None => None,
                                },
                                None => None,
                            },
                            None => None,
                        },
                        None => None,
                    }
                } else {
                    None
                }
            },
            None => None,
        },
        None => None,
    }
}

/// An optional error object at `i`: `null` or an error object.
pub open spec fn p_opt_err(s: Seq<char>, i: int) -> Option<(Option<ErrorInfoV>, int)> {
    if 0 <= i < s.len() && s[i] == 'n' {
        match p_lit(s, i, lit_null()) {
            Some(j) => Some((None, j)),
            None => None,
        }
    } else {
        match p_error(s, i) {
            Some(t) => Some((Some(t.0), t.1)),
            None => None,
        }
    }
}

/// A result object at `i`.
pub open spec fn p_result(s: Seq<char>, i: int) -> Option<(ExecResultV, int)> {
    match p_lit(s, i, l_uuid()) {
        Some(j0) => match p_string(s, j0) {
            Some(ut) => match p_lit(s, ut.1, l_stdout()) {
                Some(j1) => match p_opt_str(s, j1) {
                    Some(ot) => match p_lit(s, ot.1, l_retval()) {
                        Some(j2) => match p_map(s, j2) {
                            Some(rt) => match p_lit(s, rt.1, l_error()) {
                                Some(j3) => match p_opt_err(s, j3) {
                                    Some(et) => match p_lit(s, et.1, seq!['}']) {
                                        Some(j4) => Some((
                                            ExecResultV {
                                                uuid: ut.0,
                                                stdout: ot.0,
                                                retval: rt.0,
                                                error: et.0,
                                            },
                                            j4,
                                        )),
                                        None => None,
                                    },
                                    None => None,
                                },
                                None => None,
                            },
                            None => None,
                        },
                        None => None,
                    },
                    None => None,
                },
                None => None,
            },
            None => None,
        },
        None => None,
    }
}

/// The whole envelope: a message object spanning the entire text.
pub open spec fn p_message(s: Seq<char>) -> Option<MessageV> {
    match p_lit(s, 0, l_uuid()) {
        Some(j0) => match p_string(s, j0) {
            Some(ut) => match p_lit(s, ut.1, l_entrypoint()) {
                Some(j1) => match p_string(s, j1) {
                    Some(et) => match p_lit(s, et.1, l_metadata()) {
                        Some(j2) => match p_map(s, j2) {
                            Some(mt) => match p_lit(s, mt.1, l_params()) {
                                Some(j3) => match p_map(s, j3) {
                                    Some(pt) => match p_lit(s, pt.1, l_result()) {
                                        Some(j4) => match p_result(s, j4) {
                                            Some(rt) => match p_lit(s, rt.1, seq!['}']) {
                                                Some(j5) => if j5 == s.len() {
                                                    Some(
                                                        MessageV {
                                                            uuid: ut.0,
                                                            entrypoint: et.0,
                                                            metadata: mt.0,
                                                            params: pt.0,
                                                            result: rt.0,
                                                        },
                                                    )
                                                } else {
                                                    None
                                                },
                                                None => None,
                                            },
                                            None => None,
                                        },
                                        None => None,
                                    },
                                    None => None,
                                },
                                None => None,
                            },
                            None => None,
                        },
                        None => None,
                    },
                    None => None,
                },
                None => None,
            },
            None => None,
        },
        None => None,
    }
}

/// Whether every map a parsed message carries has distinct keys.
pub open spec fn parsed_wf(m: MessageV) -> bool {
    &&& crate::value::keys_distinct(m.metadata)
    &&& crate::value::keys_distinct(m.params)
    &&& crate::value::keys_distinct(m.result.retval)
    &&& match m.result.error {
        Some(e) => match e.extra {
            Some(x) => crate::value::keys_distinct(x),
            None => true,
        },
        None => true,
    }
}

/// What decoding yields: the parsed envelope, with the embedded result
/// adopted under the message's own identifier, as construction does; text
/// that does not follow the canonical form, or repeats a key, is refused.
pub open spec fn spec_decode(s: Seq<char>) -> Option<MessageV> {
    match p_message(s) {
        Some(m) => if parsed_wf(m) {
            Some(MessageV { result: ExecResultV { uuid: m.uuid, ..m.result }, ..m })
        } else {
            None
        },
        None => None,
    }
}


// ---------------------------------------------------------------------------
// The executable decoder, verified to agree with the parser above.
// ---------------------------------------------------------------------------

/// The run from `i` to the first non-digit is made of digits.
pub proof fn lemma_digits_end_props(s: Seq<char>, i: int)
    requires
        0 <= i <= s.len(),
    ensures
        i <= digits_end(s, i) <= s.len(),
        forall|t: int| i <= t < digits_end(s, i) ==> is_digit(s[t]),
        digits_end(s, i) == s.len() || !is_digit(s[digits_end(s, i)]),
    decreases s.len() - i,
{
    if i < s.len() && is_digit(s[i]) {
        lemma_digits_end_props(s, i + 1);
    }
}

/// A run of `n` digits denotes a value below ten to the `n`.
pub proof fn lemma_digits_val_bound(d: Seq<char>)
    requires
        forall|t: int| 0 <= t < d.len() ==> is_digit(d[t]),
    ensures
        0 <= digits_val(d) < pow10(d.len()),
    decreases d.len(),
{
    if d.len() > 0 {
        lemma_digits_val_bound(d.drop_last());
        assert(d.drop_last().len() == (d.len() - 1) as nat);
        assert(is_digit(d.last()));
        assert(0 <= digit_val(d.last()) <= 9);
        assert(digits_val(d.drop_last()) * 10 + 10 <= (pow10((d.len() - 1) as nat) - 1) * 10 + 10) by (
        nonlinear_arith)
            requires
                digits_val(d.drop_last()) <= pow10((d.len() - 1) as nat) - 1,
        ;
    }
}

/// Matches a literal at `i`.
fn e_lit(ch: &Vec<char>, i: usize, lit: &str) -> (r: Option<usize>)
    ensures
        (match r {
            Some(j) => p_lit(ch@, i as int, lit@) == Some(j as int) && i <= j <= ch@.len()
                && j == i + lit@.len(),
            None => p_lit(ch@, i as int, lit@) is None,
        }),
{
    let n = lit.unicode_len();
    let cl = ch.len();
    if i > cl || n > cl - i {
        return None;
    }
    let mut k: usize = 0;
    while k < n
        invariant
            k <= n,
            n == lit@.len(),
            cl == ch@.len(),
            i + n <= cl,
            forall|t: int| 0 <= t < k ==> ch@[i + t] == lit@[t],
        decreases n - k,
    {
        proof {
            assert(i + k < ch@.len());
        }
        if ch[i + k] != lit.get_char(k) {
            proof {
                assert(ch@.subrange(i as int, i + n) != lit@) by {
                    assert(ch@.subrange(i as int, i + n)[k as int] == ch@[i + k]);
                }
            }
            return None;
        }
        k += 1;
    }
    proof {
        assert(ch@.subrange(i as int, i + n) =~= lit@);
    }
    Some(i + n)
}

/// Reads a quoted string's content from just after its opening quote.
fn e_string_body(ch: &Vec<char>, start: usize) -> (r: Option<(Vec<char>, usize)>)
    requires
        start <= ch@.len(),
    ensures
        (match r {
            Some(t) => p_string_body(ch@, start as int) == Some((t.0@, t.1 as int)) && start
                < t.1 <= ch@.len(),
            None => p_string_body(ch@, start as int) is None,
        }),
{
    let mut out: Vec<char> = Vec::new();
    let mut j: usize = start;
    proof {
        let r0 = p_string_body(ch@, start as int);
        if r0 is Some {
            assert(Seq::<char>::empty() + (r0->0).0 =~= (r0->0).0);
        }
    }
    loop
        invariant
            start <= j <= ch@.len(),
            (match p_string_body(ch@, j as int) {
                Some(t) => p_string_body(ch@, start as int) == Some((out@ + t.0, t.1)),
                None => p_string_body(ch@, start as int) is None,
            }),
        decreases ch@.len() - j,
    {
        if j >= ch.len() {
            return None;
        }
        let c = ch[j];
        if c == '"' {
            proof {
                assert(out@ + Seq::<char>::empty() =~= out@);
            }
            return Some((out, j + 1));
        } else if c == '\\' {
            if j + 1 >= ch.len() {
                return None;
            }
            let c2 = ch[j + 1];
            let u: Option<char> = if c2 == '"' {
                Some('"')
            } else if c2 == '\\' {
                Some('\\')
            } else if c2 == 'n' {
                Some('\n')
            } else if c2 == 't' {
                Some('\t')
            } else if c2 == 'r' {
                Some('\r')
            } else {
                None
            };
            match u {
                Some(cu) => {
                    proof {
                        assert(u == unesc_char(c2));
                        let r2 = p_string_body(ch@, j + 2);
                        if r2 is Some {
                            assert(out@.push(cu) + (r2->0).0 =~= out@ + (seq![cu] + (r2->0).0));
                        }
                    }
                    out.push(cu);
                    j = j + 2;
                },
                None => {
                    proof {
                        assert(u == unesc_char(c2));
                    }
                    return None;
                },
            }
        } else {
            proof {
                let r2 = p_string_body(ch@, j + 1);
                if r2 is Some {
                    assert(out@.push(c) + (r2->0).0 =~= out@ + (seq![c] + (r2->0).0));
                }
            }
            out.push(c);
            j = j + 1;
        }
    }
}

/// Reads a quoted string at `i`.
fn e_string(ch: &Vec<char>, i: usize) -> (r: Option<(String, usize)>)
    ensures
        (match r {
            Some(t) => p_string(ch@, i as int) == Some((t.0@, t.1 as int)) && i < t.1 <= ch@.len(),
            None => p_string(ch@, i as int) is None,
        }),
{
    if i >= ch.len() {
        return None;
    }
    if ch[i] != '"' {
        return None;
    }
    match e_string_body(ch, i + 1) {
        Some((t, j)) => Some((chars_to_string(&t), j)),
        None => None,
    }
}

/// Reads an integer at `i`.
fn e_int(ch: &Vec<char>, i: usize) -> (r: Option<(i64, usize)>)
    ensures
        (match r {
            Some(t) => p_int(ch@, i as int) == Some((t.0 as int, t.1 as int)) && i < t.1
                <= ch@.len(),
            None => p_int(ch@, i as int) is None,
        }),
{
    if i >= ch.len() {
        return None;
    }
    let neg = ch[i] == '-';
    let ds: usize = if neg {
        i + 1
    } else {
        i
    };
    if ds > ch.len() {
        return None;
    }
    proof {
        lemma_digits_end_props(ch@, ds as int);
    }
    let mut e: usize = ds;
    while e < ch.len() && '0' <= ch[e] && ch[e] <= '9'
        invariant
            ds <= e <= ch@.len(),
            digits_end(ch@, ds as int) == digits_end(ch@, e as int),
        decreases ch@.len() - e,
    {
        e += 1;
    }
    proof {
        assert(digits_end(ch@, ds as int) == e as int);
        lemma_digits_end_props(ch@, ds as int);
    }
    let cnt = e - ds;
    if cnt == 0 || cnt > 19 {
        return None;
    }
    let ghost d = ch@.subrange(ds as int, e as int);
    proof {
        assert(forall|t: int| 0 <= t < d.len() ==> is_digit(d[t]));
        lemma_pow10_vals();
    }
    let mut acc: u64 = 0;
    let mut k: usize = ds;
    proof {
        assert(ch@.subrange(ds as int, ds as int) =~= Seq::<char>::empty());
    }
    while k < e
        invariant
            ds <= k <= e <= ch@.len(),
            e - ds <= 19,
            d == ch@.subrange(ds as int, e as int),
            forall|t: int| 0 <= t < d.len() ==> is_digit(d[t]),
            forall|t: int| ds <= t < e ==> is_digit(ch@[t]),
            acc == digits_val(ch@.subrange(ds as int, k as int)),
            pow10(19) == 10000000000000000000,
        decreases e - k,
    {
        let ghost pre = ch@.subrange(ds as int, k as int);
        proof {
            assert(pre =~= d.subrange(0, k - ds));
            assert(forall|t: int| 0 <= t < pre.len() ==> is_digit(pre[t]));
            lemma_digits_val_bound(pre);
            assert(pre.len() <= 18);
            assert(pow10(pre.len()) <= pow10(18)) by {
                lemma_pow10_mono(pre.len(), 18);
            }
            assert(pow10(18) * 10 == pow10(19));
        }
        let c = ch[k];
        let dv: u64 = (c as u32 - '0' as u32) as u64;
        proof {
            assert(is_digit(ch@[k as int]));
            assert(dv == digit_val(c));
            assert(acc * 10 + dv < pow10(19)) by (nonlinear_arith)
                requires
                    acc < pow10(18),
                    dv <= 9,
                    pow10(18) * 10 == pow10(19),
                    acc >= 0,
            ;
        }
        acc = acc * 10 + dv;
        k += 1;
        proof {
            let cur = ch@.subrange(ds as int, k as int);
            assert(cur.drop_last() =~= ch@.subrange(ds as int, k - 1));
            assert(cur.last() == ch@[k - 1]);
            assert(acc == digits_val(cur));
        }
    }
    proof {
        assert(acc == digits_val(d));
    }
    if neg {
        if acc > 9223372036854775808u64 {
            return None;
        }
        let v: i64 = if acc == 9223372036854775808u64 {
            i64::MIN
        } else {
            let a = acc as i64;
            -a
        };
        Some((v, e))
    } else {
        if acc > 9223372036854775807u64 {
            return None;
        }
        Some((acc as i64, e))
    }
}

/// The two powers of ten that bound a nineteen-digit run.
pub proof fn lemma_pow10_vals()
    ensures
        pow10(18) == 1000000000000000000,
        pow10(19) == 10000000000000000000,
{
    reveal_with_fuel(pow10, 21);
}

/// Ten to the `n` grows with `n`.
pub proof fn lemma_pow10_mono(a: nat, b: nat)
    requires
        a <= b,
    ensures
        pow10(a) <= pow10(b),
        pow10(a) >= 1,
    decreases b,
{
    if a < b {
        lemma_pow10_mono(a, (b - 1) as nat);
    } else if b > 0 {
        lemma_pow10_mono((a - 1) as nat, (b - 1) as nat);
    }
}


/// Reads a scalar value at `i`, told apart by its first character.
fn e_value(ch: &Vec<char>, i: usize) -> (r: Option<(Value, usize)>)
    ensures
        (match r {
            Some(t) => p_value(ch@, i as int) == Some((t.0@, t.1 as int)) && i < t.1
                <= ch@.len(),
            None => p_value(ch@, i as int) is None,
        }),
{
    if i >= ch.len() {
        return None;
    }
    let c = ch[i];
    if c == '"' {
        match e_string(ch, i) {
            Some((s, j)) => Some((Value::Str(s), j)),
            None => None,
        }
    } else if c == 'n' {
        proof {
            reveal_strlit("null");
            assert("null"@ =~= lit_null());
        }
        match e_lit(ch, i, "null") {
            Some(j) => Some((Value::Null, j)),
            None => None,
        }
    } else if c == 't' {
        proof {
            reveal_strlit("true");
            assert("true"@ =~= lit_true());
        }
        match e_lit(ch, i, "true") {
            Some(j) => Some((Value::Bool(true), j)),
            None => None,
        }
    } else if c == 'f' {
        proof {
            reveal_strlit("false");
            assert("false"@ =~= lit_false());
        }
        match e_lit(ch, i, "false") {
            Some(j) => Some((Value::Bool(false), j)),
            None => None,
        }
    } else if c == '-' || ('0' <= c && c <= '9') {
        match e_int(ch, i) {
            Some((v, j)) => Some((Value::Int(v), j)),
            None => None,
        }
    } else {
        None
    }
}

/// Reads one or more `"key":value` entries from `i`, ending past the
/// closing brace of their object.
fn e_entries(ch: &Vec<char>, start: usize) -> (r: Option<(Vec<Entry>, usize)>)
    requires
        start <= ch@.len(),
    ensures
        (match r {
            Some(t) => p_entries(ch@, start as int) == Some((ents_view(t.0@), t.1 as int))
                && start < t.1 <= ch@.len(),
            None => p_entries(ch@, start as int) is None,
        }),
{
    let mut out: Vec<Entry> = Vec::new();
    let mut j: usize = start;
    proof {
        let r0 = p_entries(ch@, start as int);
        if r0 is Some {
            assert(ents_view(out@) + (r0->0).0 =~= (r0->0).0);
        }
    }
    loop
        invariant
            start <= j <= ch@.len(),
            (match p_entries(ch@, j as int) {
                Some(t) => p_entries(ch@, start as int) == Some((ents_view(out@) + t.0, t.1)),
                None => p_entries(ch@, start as int) is None,
            }),
        decreases ch@.len() - j,
    {
        let (k, j1) = match e_string(ch, j) {
            Some(t) => t,
            None => {
                return None;
            },
        };
        if j1 >= ch.len() {
            return None;
        }
        if ch[j1] != ':' {
            return None;
        }
        let (v, j2) = match e_value(ch, j1 + 1) {
            Some(t) => t,
            None => {
                return None;
            },
        };
        let ghost kv = k@;
        let ghost vv = v@;
        if j2 < ch.len() && ch[j2] == ',' {
            proof {
                let r2 = p_entries(ch@, j2 + 1);
                if r2 is Some {
                    assert(ents_view(out@.push(Entry { key: k, val: v })) =~= ents_view(out@)
                        + seq![(kv, vv)]);
                    assert((ents_view(out@) + seq![(kv, vv)]) + (r2->0).0 =~= ents_view(out@) + (
                    seq![(kv, vv)] + (r2->0).0));
                }
            }
            out.push(Entry { key: k, val: v });
            j = j2 + 1;
        } else if j2 < ch.len() && ch[j2] == '}' {
            proof {
                assert(ents_view(out@.push(Entry { key: k, val: v })) =~= ents_view(out@)
                    + seq![(kv, vv)]);
            }
            out.push(Entry { key: k, val: v });
            return Some((out, j2 + 1));
        } else {
            return None;
        }
    }
}

/// Reads an object at `i` into its entry list.
fn e_map(ch: &Vec<char>, i: usize) -> (r: Option<(Vec<Entry>, usize)>)
    ensures
        (match r {
            Some(t) => p_map(ch@, i as int) == Some((ents_view(t.0@), t.1 as int)) && i < t.1
                <= ch@.len(),
            None => p_map(ch@, i as int) is None,
        }),
{
    let cl = ch.len();
    if i >= cl {
        return None;
    }
    if ch[i] != '{' {
        return None;
    }
    if i + 1 < cl && ch[i + 1] == '}' {
        let out: Vec<Entry> = Vec::new();
        proof {
            assert(ents_view(out@) =~= Seq::<(Seq<char>, ValueV)>::empty());
        }
        return Some((out, i + 2));
    }
    e_entries(ch, i + 1)
}

/// Reads `null` or a quoted string at `i`.
fn e_opt_str(ch: &Vec<char>, i: usize) -> (r: Option<(Option<String>, usize)>)
    ensures
        (match r {
            Some(t) => p_opt_str(ch@, i as int) == Some((
                match t.0 {
                    Some(s) => Some(s@),
                    None => None,
                },
                t.1 as int,
            )) && i < t.1 <= ch@.len(),
            None => p_opt_str(ch@, i as int) is None,
        }),
{
    if i < ch.len() && ch[i] == 'n' {
        proof {
            reveal_strlit("null");
            assert("null"@ =~= lit_null());
        }
        match e_lit(ch, i, "null") {
            Some(j) => Some((None, j)),
            None => None,
        }
    } else {
        match e_string(ch, i) {
            Some((s, j)) => Some((Some(s), j)),
            None => None,
        }
    }
}

/// Reads `null` or an object at `i`.
fn e_opt_map(ch: &Vec<char>, i: usize) -> (r: Option<(Option<Vec<Entry>>, usize)>)
    ensures
        (match r {
            Some(t) => p_opt_map(ch@, i as int) == Some((
                match t.0 {
                    Some(v) => Some(ents_view(v@)),
                    None => None,
                },
                t.1 as int,
            )) && i < t.1 <= ch@.len(),
            None => p_opt_map(ch@, i as int) is None,
        }),
{
    if i < ch.len() && ch[i] == 'n' {
        proof {
            reveal_strlit("null");
            assert("null"@ =~= lit_null());
        }
        match e_lit(ch, i, "null") {
            Some(j) => Some((None, j)),
            None => None,
        }
    } else {
        match e_map(ch, i) {
            Some((v, j)) => Some((Some(v), j)),
            None => None,
        }
    }
}

/// Reads an error object at `i`.
fn e_error(ch: &Vec<char>, i: usize) -> (r: Option<(ErrorInfo, usize)>)
    ensures
        (match r {
            Some(t) => p_error(ch@, i as int) == Some((t.0@, t.1 as int)) && i < t.1
                <= ch@.len(),
            None => p_error(ch@, i as int) is None,
        }),
{
    proof {
        reveal_strlit("{\"code\":");
        reveal_strlit(",\"msgid\":");
        reveal_strlit(",\"message\":");
        reveal_strlit(",\"extra\":");
        reveal_strlit("}");
        assert("{\"code\":"@ =~= l_code());
        assert(",\"msgid\":"@ =~= l_msgid());
        assert(",\"message\":"@ =~= l_message());
        assert(",\"extra\":"@ =~= l_extra());
        assert("}"@ =~= seq!['}']);
    }
    let j0 = match e_lit(ch, i, "{\"code\":") {
        Some(j) => j,
        None => {
            return None;
        },
    };
    let (code, j1) = match e_int(ch, j0) {
        Some(t) => t,
        None => {
            return None;
        },
    };
    if code < 0 || code > 65535 {
        return None;
    }
    let j2 = match e_lit(ch, j1, ",\"msgid\":") {
        Some(j) => j,
        None => {
            return None;
        },
    };
    let (msgid, j3) = match e_string(ch, j2) {
        Some(t) => t,
        None => {
            return None;
        },
    };
    let j4 = match e_lit(ch, j3, ",\"message\":") {
        Some(j) => j,
        None => {
            return None;
        },
    };
    let (message, j5) = match e_string(ch, j4) {
        Some(t) => t,
        None => {
            return None;
        },
    };
    let j6 = match e_lit(ch, j5, ",\"extra\":") {
        Some(j) => j,
        None => {
            return None;
        },
    };
    let (extra, j7) = match e_opt_map(ch, j6) {
        Some(t) => t,
        None => {
            return None;
        },
    };
    let j8 = match e_lit(ch, j7, "}") {
        Some(j) => j,
        None => {
            return None;
        },
    };
    let e = ErrorInfo {
        code: code as u16,
        msgid,
        message,
        extra: match extra {
            Some(v) => Some(KvMap { entries: v }),
            None => None,
        },
    };
    Some((e, j8))
}

/// Reads `null` or an error object at `i`.
fn e_opt_err(ch: &Vec<char>, i: usize) -> (r: Option<(Option<ErrorInfo>, usize)>)
    ensures
        (match r {
            Some(t) => p_opt_err(ch@, i as int) == Some((
                match t.0 {
                    Some(e) => Some(e@),
                    None => None,
                },
                t.1 as int,
            )) && i < t.1 <= ch@.len(),
            None => p_opt_err(ch@, i as int) is None,
        }),
{
    if i < ch.len() && ch[i] == 'n' {
        proof {
            reveal_strlit("null");
            assert("null"@ =~= lit_null());
        }
        match e_lit(ch, i, "null") {
            Some(j) => Some((None, j)),
            None => None,
        }
    } else {
        match e_error(ch, i) {
            Some((e, j)) => Some((Some(e), j)),
            None => None,
        }
    }
}

/// Reads a result object at `i`.
fn e_result(ch: &Vec<char>, i: usize) -> (r: Option<(ExecResult, usize)>)
    ensures
        (match r {
            Some(t) => p_result(ch@, i as int) == Some((t.0@, t.1 as int)) && i < t.1
                <= ch@.len(),
            None => p_result(ch@, i as int) is None,
        }),
{
    proof {
        reveal_strlit("{\"uuid\":");
        reveal_strlit(",\"stdout\":");
        reveal_strlit(",\"retval\":");
        reveal_strlit(",\"error\":");
        reveal_strlit("}");
        assert("{\"uuid\":"@ =~= l_uuid());
        assert(",\"stdout\":"@ =~= l_stdout());
        assert(",\"retval\":"@ =~= l_retval());
        assert(",\"error\":"@ =~= l_error());
        assert("}"@ =~= seq!['}']);
    }
    let j0 = match e_lit(ch, i, "{\"uuid\":") {
        Some(j) => j,
        None => {
            return None;
        },
    };
    let (uuid, j1) = match e_string(ch, j0) {
        Some(t) => t,
        None => {
            return None;
        },
    };
    let j2 = match e_lit(ch, j1, ",\"stdout\":") {
        Some(j) => j,
        None => {
            return None;
        },
    };
    let (stdout, j3) = match e_opt_str(ch, j2) {
        Some(t) => t,
        None => {
            return None;
        },
    };
    let j4 = match e_lit(ch, j3, ",\"retval\":") {
        Some(j) => j,
        None => {
            return None;
        },
    };
    let (retval, j5) = match e_map(ch, j4) {
        Some(t) => t,
        None => {
            return None;
        },
    };
    let j6 = match e_lit(ch, j5, ",\"error\":") {
        Some(j) => j,
        None => {
            return None;
        },
    };
    let (error, j7) = match e_opt_err(ch, j6) {
        Some(t) => t,
        None => {
            return None;
        },
    };
    let j8 = match e_lit(ch, j7, "}") {
        Some(j) => j,
        None => {
            return None;
        },
    };
    let res = ExecResult { uuid, stdout, retval: KvMap { entries: retval }, error };
    Some((res, j8))
}

/// Checks that no two entries share a key.
fn check_distinct(v: &Vec<Entry>) -> (r: bool)
    ensures
        r == crate::value::keys_distinct(ents_view(v@)),
{
    let n = v.len();
    let mut i: usize = 0;
    while i < n
        invariant
            i <= n,
            n == v@.len(),
            forall|a: int, b: int| 0 <= a < b < n && a < i ==> ents_view(v@)[a].0 != ents_view(
                v@,
            )[b].0,
        decreases n - i,
    {
        let mut j: usize = i + 1;
        while j < n
            invariant
                i < j <= n,
                n == v@.len(),
                forall|b: int| i < b < j ==> ents_view(v@)[i as int].0 != ents_view(v@)[b].0,
            decreases n - j,
        {
            if crate::value::str_eq(v[i].key.as_str(), v[j].key.as_str()) {
                proof {
                    assert(ents_view(v@)[i as int].0 == ents_view(v@)[j as int].0);
                }
                return false;
            }
            j += 1;
        }
        i += 1;
    }
    true
}

/// Decodes a wire envelope back into a message. Text that does not follow
/// the canonical form, or repeats a key within one of the maps, is refused
/// with a serialization error; the embedded result is adopted under the
/// message's own identifier, as construction does.
#[verifier::rlimit(80)]
pub fn decode_message(s: &str) -> (r: Result<Message, KserErrors>)
    ensures
        (match r {
            Ok(m) => spec_decode(s@) == Some(m@) && m.wf(),
            Err(e) => spec_decode(s@) is None && (e matches KserErrors::JSONError(_)),
        }),
{
    proof {
        reveal_strlit("{\"uuid\":");
        reveal_strlit(",\"entrypoint\":");
        reveal_strlit(",\"metadata\":");
        reveal_strlit(",\"params\":");
        reveal_strlit(",\"result\":");
        reveal_strlit("}");
        assert("{\"uuid\":"@ =~= l_uuid());
        assert(",\"entrypoint\":"@ =~= l_entrypoint());
        assert(",\"metadata\":"@ =~= l_metadata());
        assert(",\"params\":"@ =~= l_params());
        assert(",\"result\":"@ =~= l_result());
        assert("}"@ =~= seq!['}']);
    }
    let ch = str_to_chars(s);
    let j0 = match e_lit(&ch, 0, "{\"uuid\":") {
        Some(j) => j,
        None => {
            return Err(KserErrors::JSONError("payload is not a message envelope".to_owned()));
        },
    };
    let (uuid, j1) = match e_string(&ch, j0) {
        Some(t) => t,
        None => {
            return Err(KserErrors::JSONError("payload is not a message envelope".to_owned()));
        },
    };
    let j2 = match e_lit(&ch, j1, ",\"entrypoint\":") {
        Some(j) => j,
        None => {
            return Err(KserErrors::JSONError("payload is not a message envelope".to_owned()));
        },
    };
    let (entrypoint, j3) = match e_string(&ch, j2) {
        Some(t) => t,
        None => {
            return Err(KserErrors::JSONError("payload is not a message envelope".to_owned()));
        },
    };
    let j4 = match e_lit(&ch, j3, ",\"metadata\":") {
        Some(j) => j,
        None => {
            return Err(KserErrors::JSONError("payload is not a message envelope".to_owned()));
        },
    };
    let (metadata, j5) = match e_map(&ch, j4) {
        Some(t) => t,
        None => {
            return Err(KserErrors::JSONError("payload is not a message envelope".to_owned()));
        },
    };
    let j6 = match e_lit(&ch, j5, ",\"params\":") {
        Some(j) => j,
        None => {
            return Err(KserErrors::JSONError("payload is not a message envelope".to_owned()));
        },
    };
    let (params, j7) = match e_map(&ch, j6) {
        Some(t) => t,
        None => {
            return Err(KserErrors::JSONError("payload is not a message envelope".to_owned()));
        },
    };
    let j8 = match e_lit(&ch, j7, ",\"result\":") {
        Some(j) => j,
        None => {
            return Err(KserErrors::JSONError("payload is not a message envelope".to_owned()));
        },
    };
    let (res, j9) = match e_result(&ch, j8) {
        Some(t) => t,
        None => {
            return Err(KserErrors::JSONError("payload is not a message envelope".to_owned()));
        },
    };
    let j10 = match e_lit(&ch, j9, "}") {
        Some(j) => j,
        None => {
            return Err(KserErrors::JSONError("payload is not a message envelope".to_owned()));
        },
    };
    if j10 != ch.len() {
        return Err(KserErrors::JSONError("payload is not a message envelope".to_owned()));
    }
    if !check_distinct(&metadata) || !check_distinct(&params) || !check_distinct(
        &res.retval.entries,
    ) {
        return Err(KserErrors::JSONError("a map in the payload repeats a key".to_owned()));
    }
    match res.error {
        Some(ref e) => match e.extra {
            Some(ref x) => {
                if !check_distinct(&x.entries) {
                    return Err(
                        KserErrors::JSONError("a map in the payload repeats a key".to_owned()),
                    );
                }
            },
            None => {},
        },
        None => {},
    }
    let result = ExecResult {
        uuid: uuid.clone(),
        stdout: res.stdout,
        retval: res.retval,
        error: res.error,
    };
    let m = Message {
        uuid,
        entrypoint,
        metadata: KvMap { entries: metadata },
        params: KvMap { entries: params },
        result,
    };
    Ok(m)
}


// ---------------------------------------------------------------------------
// The round trip: parsing an encoded item yields the item back.
// ---------------------------------------------------------------------------

/// A slice that is a concatenation splits at the length of its first part.
pub proof fn lemma_subrange_split(s: Seq<char>, i: int, j: int, a: Seq<char>, b: Seq<char>)
    requires
        0 <= i <= j <= s.len(),
        s.subrange(i, j) == a + b,
    ensures
        s.subrange(i, i + a.len()) == a,
        s.subrange(i + a.len(), j) == b,
        j == i + a.len() + b.len(),
{
    assert(s.subrange(i, j).len() == j - i);
    assert((a + b).len() == a.len() + b.len());
    assert(j - i == a.len() + b.len());
    assert forall|t: int| 0 <= t < a.len() implies s.subrange(i, i + a.len())[t] == a[t] by {
        assert(s.subrange(i, j)[t] == s[i + t]);
        assert((a + b)[t] == a[t]);
        assert(s.subrange(i, i + a.len())[t] == s[i + t]);
    }
    assert(s.subrange(i, i + a.len()) =~= a);
    assert forall|t: int| 0 <= t < b.len() implies s.subrange(i + a.len(), j)[t] == b[t] by {
        assert(s.subrange(i, j)[a.len() + t] == s[i + a.len() + t]);
        assert((a + b)[a.len() + t] == b[t]);
        assert(s.subrange(i + a.len(), j)[t] == s[i + a.len() + t]);
    }
    assert(s.subrange(i + a.len(), j) =~= b);
}

/// Parsing an escaped string body yields the string back.
pub proof fn lemma_rt_string_body(s: Seq<char>, i: int, t: Seq<char>)
    requires
        0 <= i,
        i + esc(t).len() + 1 <= s.len(),
        s.subrange(i, i + esc(t).len()) == esc(t),
        s[i + esc(t).len()] == '"',
    ensures
        p_string_body(s, i) == Some((t, i + esc(t).len() + 1)),
    decreases t.len(),
{
    if t.len() == 0 {
        assert(esc(t).len() == 0);
        assert(s[i] == '"');
    } else {
        let c = t[0];
        let t2 = t.drop_first();
        assert(esc(t) == esc_char(c) + esc(t2));
        lemma_subrange_split(s, i, i + esc(t).len(), esc_char(c), esc(t2));
        let i2 = i + esc_char(c).len();
        assert(s.subrange(i2, i + esc(t).len()) == esc(t2));
        assert(s[i2 + esc(t2).len()] == '"');
        lemma_rt_string_body(s, i2, t2);
        if c == '"' || c == '\\' || c == '\n' || c == '\t' || c == '\r' {
            assert(esc_char(c).len() == 2);
            assert(s[i] == esc_char(c)[0]) by {
                assert(s.subrange(i, i + 2)[0] == esc_char(c)[0]);
            }
            assert(s[i + 1] == esc_char(c)[1]) by {
                assert(s.subrange(i, i + 2)[1] == esc_char(c)[1]);
            }
            assert(s[i] == '\\');
            assert(unesc_char(s[i + 1]) == Some(c));
            assert(seq![c] + t2 =~= t);
        } else {
            assert(esc_char(c) =~= seq![c]);
            assert(s[i] == c) by {
                assert(s.subrange(i, i + 1)[0] == esc_char(c)[0]);
            }
            assert(s[i] != '"' && s[i] != '\\');
            assert(seq![s[i]] + t2 =~= t);
        }
    }
}

/// Parsing a quoted string yields the string back.
pub proof fn lemma_rt_string(s: Seq<char>, i: int, t: Seq<char>)
    requires
        0 <= i,
        i + enc_str(t).len() <= s.len(),
        s.subrange(i, i + enc_str(t).len()) == enc_str(t),
    ensures
        p_string(s, i) == Some((t, i + enc_str(t).len())),
{
    assert(enc_str(t) =~= seq!['"'] + (esc(t) + seq!['"']));
    lemma_subrange_split(s, i, i + enc_str(t).len(), seq!['"'], esc(t) + seq!['"']);
    assert(s[i] == '"') by {
        assert(s.subrange(i, i + 1)[0] == '"');
    }
    lemma_subrange_split(s, i + 1, i + enc_str(t).len(), esc(t), seq!['"']);
    assert(s[i + 1 + esc(t).len()] == '"') by {
        assert(s.subrange(i + 1 + esc(t).len(), i + enc_str(t).len())[0] == '"');
    }
    lemma_rt_string_body(s, i + 1, t);
}

/// The decimal form of a number is made of digits and denotes it.
pub proof fn lemma_dec_nat_digits(n: nat)
    ensures
        dec_nat(n).len() >= 1,
        forall|t: int| 0 <= t < dec_nat(n).len() ==> is_digit(dec_nat(n)[t]),
        digits_val(dec_nat(n)) == n,
    decreases n,
{
    if n < 10 {
        let d = dec_nat(n);
        assert(d == seq![digit_char(n as int)]);
        assert(d.drop_last() =~= Seq::<char>::empty());
        assert(d.last() == digit_char(n as int));
        assert(is_digit(digit_char(n as int)));
        assert(digit_val(digit_char(n as int)) == n);
        assert(digits_val(Seq::<char>::empty()) == 0);
        assert(digits_val(d) == digits_val(d.drop_last()) * 10 + digit_val(d.last()));
    } else {
        lemma_dec_nat_digits(n / 10);
        let d = dec_nat(n);
        assert(d == dec_nat(n / 10) + seq![digit_char((n % 10) as int)]);
        assert(d.drop_last() =~= dec_nat(n / 10));
        assert(d.last() == digit_char((n % 10) as int));
        assert(is_digit(d.last()));
        assert(digit_val(d.last()) == n % 10);
        assert(digits_val(d) == (n / 10) * 10 + n % 10);
        assert((n / 10) * 10 + n % 10 == n) by (nonlinear_arith);
        assert forall|t: int| 0 <= t < d.len() implies is_digit(d[t]) by {
            if t < d.len() - 1 {
                assert(d[t] == dec_nat(n / 10)[t]);
            }
        }
    }
}

/// A number below ten to the `k` takes at most `k` digits.
pub proof fn lemma_dec_nat_len(n: nat, k: nat)
    requires
        k >= 1,
        n < pow10(k),
    ensures
        dec_nat(n).len() <= k,
    decreases n,
{
    if n < 10 {
    } else {
        lemma_pow10_mono(1, k);
        assert(pow10(k) == 10 * pow10((k - 1) as nat));
        assert(n / 10 < pow10((k - 1) as nat)) by (nonlinear_arith)
            requires
                n >= 10,
                n < 10 * pow10((k - 1) as nat),
                pow10((k - 1) as nat) >= 1,
        ;
        assert(k >= 2) by {
            if k == 1 {
                assert(pow10(1nat) == 10);
            }
        }
        lemma_dec_nat_len(n / 10, (k - 1) as nat);
    }
}

/// The run of digits in a text ends exactly where the digits end.
pub proof fn lemma_rt_digits_end(s: Seq<char>, i: int, j: int)
    requires
        0 <= i <= j <= s.len(),
        forall|t: int| i <= t < j ==> is_digit(s[t]),
        j == s.len() || !is_digit(s[j]),
    ensures
        digits_end(s, i) == j,
    decreases j - i,
{
    if i < j {
        lemma_rt_digits_end(s, i + 1, j);
    }
}

/// Parsing an encoded integer yields it back, when what follows is not a
/// digit.
pub proof fn lemma_rt_int(s: Seq<char>, i: int, v: int)
    requires
        0 <= i,
        i64::MIN as int <= v <= i64::MAX as int,
        i + enc_int(v).len() <= s.len(),
        s.subrange(i, i + enc_int(v).len()) == enc_int(v),
        i + enc_int(v).len() == s.len() || !is_digit(s[i + enc_int(v).len()]),
    ensures
        p_int(s, i) == Some((v, i + enc_int(v).len())),
{
    lemma_pow10_vals();
    if v < 0 {
        let m = (-v) as nat;
        lemma_dec_nat_digits(m);
        lemma_dec_nat_len(m, 19);
        lemma_subrange_split(s, i, i + enc_int(v).len(), seq!['-'], dec_nat(m));
        assert(s[i] == '-') by {
            assert(s.subrange(i, i + 1)[0] == '-');
        }
        let ds = i + 1;
        let e = ds + dec_nat(m).len();
        assert forall|t: int| ds <= t < e implies is_digit(s[t]) by {
            assert(s.subrange(ds, e)[t - ds] == dec_nat(m)[t - ds]);
        }
        lemma_rt_digits_end(s, ds, e);
        assert(s.subrange(ds, e) == dec_nat(m));
        assert(digits_val(s.subrange(ds, e)) == m);
        assert(-digits_val(s.subrange(ds, e)) == v);
    } else {
        let m = v as nat;
        lemma_dec_nat_digits(m);
        lemma_dec_nat_len(m, 19);
        let e = i + dec_nat(m).len();
        assert forall|t: int| i <= t < e implies is_digit(s[t]) by {
            assert(s.subrange(i, e)[t - i] == dec_nat(m)[t - i]);
        }
        lemma_rt_digits_end(s, i, e);
        assert(s[i] != '-') by {
            assert(is_digit(s[i]));
        }
        assert(s.subrange(i, e) == dec_nat(m));
        assert(digits_val(s.subrange(i, e)) == m);
    }
}

/// Whether an integer value lies within the machine range the decoder
/// accepts.
pub open spec fn int_fits(v: ValueV) -> bool {
    match v {
        ValueV::Int(n) => i64::MIN as int <= n <= i64::MAX as int,
        _ => true,
    }
}

/// Whether every integer among the entries lies within the machine range.
pub open spec fn ents_ints_fit(s: Seq<(Seq<char>, ValueV)>) -> bool {
    forall|t: int| 0 <= t < s.len() ==> int_fits(#[trigger] s[t].1)
}

/// Parsing an encoded scalar value yields it back, when what follows is a
/// comma or a closing brace.
pub proof fn lemma_rt_value(s: Seq<char>, i: int, v: ValueV)
    requires
        0 <= i,
        i + enc_value(v).len() <= s.len(),
        s.subrange(i, i + enc_value(v).len()) == enc_value(v),
        int_fits(v),
        i + enc_value(v).len() == s.len() || s[i + enc_value(v).len()] == ','
            || s[i + enc_value(v).len()] == '}',
    ensures
        p_value(s, i) == Some((v, i + enc_value(v).len())),
{
    let j = i + enc_value(v).len();
    match v {
        ValueV::Null => {
            assert(s[i] == 'n') by {
                assert(s.subrange(i, j)[0] == lit_null()[0]);
            }
            assert(p_lit(s, i, lit_null()) == Some(j));
        },
        ValueV::Bool(b) => {
            if b {
                assert(s[i] == 't') by {
                    assert(s.subrange(i, j)[0] == lit_true()[0]);
                }
                assert(p_lit(s, i, lit_true()) == Some(j));
            } else {
                assert(s[i] == 'f') by {
                    assert(s.subrange(i, j)[0] == lit_false()[0]);
                }
                assert(p_lit(s, i, lit_false()) == Some(j));
            }
        },
        ValueV::Int(n) => {
            if j < s.len() {
                assert(!is_digit(s[j]));
            }
            lemma_rt_int(s, i, n);
            if n < 0 {
                assert(s[i] == '-') by {
                    assert(s.subrange(i, j)[0] == enc_int(n)[0]);
                }
            } else {
                lemma_dec_nat_digits(n as nat);
                assert(is_digit(s[i])) by {
                    assert(s.subrange(i, j)[0] == enc_int(n)[0]);
                }
            }
        },
        ValueV::Str(t) => {
            assert(s[i] == '"') by {
                assert(s.subrange(i, j)[0] == enc_str(t)[0]);
            }
            lemma_rt_string(s, i, t);
        },
    }
}

/// Parsing encoded entries followed by a closing brace yields them back.
pub proof fn lemma_rt_entries(s: Seq<char>, i: int, ents: Seq<(Seq<char>, ValueV)>)
    requires
        0 <= i,
        ents.len() >= 1,
        i + enc_entries(ents).len() + 1 <= s.len(),
        s.subrange(i, i + enc_entries(ents).len()) == enc_entries(ents),
        s[i + enc_entries(ents).len()] == '}',
        ents_ints_fit(ents),
    ensures
        p_entries(s, i) == Some((ents, i + enc_entries(ents).len() + 1)),
    decreases ents.len(),
{
    let e0 = ents[0];
    let rest = ents.drop_first();
    let jend = i + enc_entries(ents).len();
    assert(enc_entries(ents) == enc_entry(e0) + enc_rest(rest));
    lemma_subrange_split(s, i, jend, enc_entry(e0), enc_rest(rest));
    assert(enc_entry(e0) == enc_str(e0.0) + seq![':'] + enc_value(e0.1));
    let ik = i + enc_str(e0.0).len();
    let iv = ik + 1;
    let j2 = iv + enc_value(e0.1).len();
    assert(enc_entry(e0) =~= enc_str(e0.0) + (seq![':'] + enc_value(e0.1)));
    lemma_subrange_split(
        s,
        i,
        i + enc_entry(e0).len(),
        enc_str(e0.0),
        seq![':'] + enc_value(e0.1),
    );
    lemma_rt_string(s, i, e0.0);
    lemma_subrange_split(s, ik, i + enc_entry(e0).len(), seq![':'], enc_value(e0.1));
    assert(s[ik] == ':') by {
        assert(s.subrange(ik, ik + 1)[0] == ':');
    }
    if rest.len() == 0 {
        assert(enc_rest(rest).len() == 0);
        assert(j2 == jend);
        assert(s[j2] == '}');
        lemma_rt_value(s, iv, e0.1);
        assert(seq![(e0.0, e0.1)] =~= ents);
    } else {
        assert(enc_rest(rest) == seq![','] + enc_entry(rest[0]) + enc_rest(rest.drop_first()));
        assert(enc_rest(rest) == seq![','] + enc_entries(rest)) by {
            assert(enc_entries(rest) == enc_entry(rest[0]) + enc_rest(rest.drop_first()));
            assert(seq![','] + enc_entry(rest[0]) + enc_rest(rest.drop_first()) =~= seq![',']
                + (enc_entry(rest[0]) + enc_rest(rest.drop_first())));
        }
        lemma_subrange_split(s, j2, jend, seq![','], enc_entries(rest));
        assert(s[j2] == ',') by {
            assert(s.subrange(j2, j2 + 1)[0] == ',');
        }
        lemma_rt_value(s, iv, e0.1);
        assert forall|t: int| 0 <= t < rest.len() implies int_fits(#[trigger] rest[t].1) by {
            assert(rest[t] == ents[t + 1]);
        }
        lemma_rt_entries(s, j2 + 1, rest);
        assert(seq![(e0.0, e0.1)] + rest =~= ents);
    }
}

/// Parsing an encoded object yields its entries back.
pub proof fn lemma_rt_map(s: Seq<char>, i: int, ents: Seq<(Seq<char>, ValueV)>)
    requires
        0 <= i,
        i + enc_map(ents).len() <= s.len(),
        s.subrange(i, i + enc_map(ents).len()) == enc_map(ents),
        ents_ints_fit(ents),
    ensures
        p_map(s, i) == Some((ents, i + enc_map(ents).len())),
{
    let jend = i + enc_map(ents).len();
    assert(enc_map(ents) =~= seq!['{'] + (enc_entries(ents) + seq!['}']));
    lemma_subrange_split(s, i, jend, seq!['{'], enc_entries(ents) + seq!['}']);
    assert(s[i] == '{') by {
        assert(s.subrange(i, i + 1)[0] == '{');
    }
    lemma_subrange_split(s, i + 1, jend, enc_entries(ents), seq!['}']);
    assert(s[i + 1 + enc_entries(ents).len()] == '}') by {
        assert(s.subrange(i + 1 + enc_entries(ents).len(), jend)[0] == '}');
    }
    if ents.len() == 0 {
        assert(enc_entries(ents).len() == 0);
        assert(s[i + 1] == '}');
    } else {
        assert(enc_entries(ents).len() >= 1) by {
            assert(enc_entries(ents) == enc_entry(ents[0]) + enc_rest(ents.drop_first()));
            assert(enc_entry(ents[0]).len() >= 1) by {
                assert(enc_entry(ents[0])[0] == '"');
            }
        }
        assert(s[i + 1] == '"') by {
            assert(enc_entries(ents)[0] == enc_entry(ents[0])[0]);
            assert(enc_entry(ents[0])[0] == '"');
            assert(s.subrange(i + 1, i + 1 + enc_entries(ents).len())[0] == enc_entries(ents)[0]);
        }
        assert(s[i + 1] != '}');
        lemma_rt_entries(s, i + 1, ents);
    }
}


/// Parsing an encoded optional string yields it back.
pub proof fn lemma_rt_opt_str(s: Seq<char>, i: int, o: Option<Seq<char>>)
    requires
        0 <= i,
        i + enc_opt_str(o).len() <= s.len(),
        s.subrange(i, i + enc_opt_str(o).len()) == enc_opt_str(o),
    ensures
        p_opt_str(s, i) == Some((o, i + enc_opt_str(o).len())),
{
    let j = i + enc_opt_str(o).len();
    match o {
        None => {
            assert(s[i] == 'n') by {
                assert(s.subrange(i, j)[0] == lit_null()[0]);
            }
            assert(p_lit(s, i, lit_null()) == Some(j));
        },
        Some(t) => {
            assert(s[i] == '"') by {
                assert(s.subrange(i, j)[0] == enc_str(t)[0]);
            }
            lemma_rt_string(s, i, t);
        },
    }
}

/// Parsing an encoded optional object yields it back.
pub proof fn lemma_rt_opt_map(s: Seq<char>, i: int, o: Option<Seq<(Seq<char>, ValueV)>>)
    requires
        0 <= i,
        i + enc_opt_map(o).len() <= s.len(),
        s.subrange(i, i + enc_opt_map(o).len()) == enc_opt_map(o),
        (match o {
            Some(m) => ents_ints_fit(m),
            None => true,
        }),
    ensures
        p_opt_map(s, i) == Some((o, i + enc_opt_map(o).len())),
{
    let j = i + enc_opt_map(o).len();
    match o {
        None => {
            assert(s[i] == 'n') by {
                assert(s.subrange(i, j)[0] == lit_null()[0]);
            }
            assert(p_lit(s, i, lit_null()) == Some(j));
        },
        Some(m) => {
            assert(s[i] == '{') by {
                assert(s.subrange(i, j)[0] == enc_map(m)[0]);
            }
            lemma_rt_map(s, i, m);
        },
    }
}

/// Parsing an encoded error object yields it back.
#[verifier::rlimit(100)]
pub proof fn lemma_rt_error(s: Seq<char>, i: int, e: ErrorInfoV)
    requires
        0 <= i,
        i + enc_error(e).len() <= s.len(),
        s.subrange(i, i + enc_error(e).len()) == enc_error(e),
        (match e.extra {
            Some(m) => ents_ints_fit(m),
            None => true,
        }),
    ensures
        p_error(s, i) == Some((e, i + enc_error(e).len())),
{
    let jend = i + enc_error(e).len();
    let p7 = l_code() + enc_int(e.code as int) + l_msgid() + enc_str(e.msgid) + l_message()
        + enc_str(e.message) + l_extra() + enc_opt_map(e.extra);
    lemma_subrange_split(s, i, jend, p7, seq!['}']);
    let j7 = i + p7.len();
    let p6 = l_code() + enc_int(e.code as int) + l_msgid() + enc_str(e.msgid) + l_message()
        + enc_str(e.message) + l_extra();
    lemma_subrange_split(s, i, j7, p6, enc_opt_map(e.extra));
    let j6 = i + p6.len();
    let p5 = l_code() + enc_int(e.code as int) + l_msgid() + enc_str(e.msgid) + l_message()
        + enc_str(e.message);
    lemma_subrange_split(s, i, j6, p5, l_extra());
    let j5 = i + p5.len();
    let p4 = l_code() + enc_int(e.code as int) + l_msgid() + enc_str(e.msgid) + l_message();
    lemma_subrange_split(s, i, j5, p4, enc_str(e.message));
    let j4 = i + p4.len();
    let p3 = l_code() + enc_int(e.code as int) + l_msgid() + enc_str(e.msgid);
    lemma_subrange_split(s, i, j4, p3, l_message());
    let j3 = i + p3.len();
    let p2 = l_code() + enc_int(e.code as int) + l_msgid();
    lemma_subrange_split(s, i, j3, p2, enc_str(e.msgid));
    let j2 = i + p2.len();
    let p1 = l_code() + enc_int(e.code as int);
    lemma_subrange_split(s, i, j2, p1, l_msgid());
    let j1 = i + p1.len();
    lemma_subrange_split(s, i, j1, l_code(), enc_int(e.code as int));
    let j0 = i + l_code().len();
    assert(p_lit(s, i, l_code()) == Some(j0));
    assert(!is_digit(s[j1])) by {
        assert(s.subrange(j1, j2)[0] == l_msgid()[0]);
    }
    lemma_rt_int(s, j0, e.code as int);
    assert(p_lit(s, j1, l_msgid()) == Some(j2));
    lemma_rt_string(s, j2, e.msgid);
    assert(p_lit(s, j3, l_message()) == Some(j4));
    lemma_rt_string(s, j4, e.message);
    assert(p_lit(s, j5, l_extra()) == Some(j6));
    lemma_rt_opt_map(s, j6, e.extra);
    assert(s[j7] == '}') by {
        assert(s.subrange(j7, jend)[0] == '}');
    }
    assert(p_lit(s, j7, seq!['}']) == Some(jend)) by {
        assert(s.subrange(j7, jend) =~= seq!['}']);
    }
}

/// Parsing an encoded optional error yields it back.
pub proof fn lemma_rt_opt_err(s: Seq<char>, i: int, o: Option<ErrorInfoV>)
    requires
        0 <= i,
        i + enc_opt_err(o).len() <= s.len(),
        s.subrange(i, i + enc_opt_err(o).len()) == enc_opt_err(o),
        (match o {
            Some(e) => match e.extra {
                Some(m) => ents_ints_fit(m),
                None => true,
            },
            None => true,
        }),
    ensures
        p_opt_err(s, i) == Some((o, i + enc_opt_err(o).len())),
{
    let j = i + enc_opt_err(o).len();
    match o {
        None => {
            assert(s[i] == 'n') by {
                assert(s.subrange(i, j)[0] == lit_null()[0]);
            }
            assert(p_lit(s, i, lit_null()) == Some(j));
        },
        Some(e) => {
            assert(s[i] == '{') by {
                assert(s.subrange(i, j)[0] == enc_error(e)[0]);
                assert(enc_error(e)[0] == l_code()[0]);
            }
            lemma_rt_error(s, i, e);
        },
    }
}

/// Parsing an encoded result object yields it back.
#[verifier::rlimit(100)]
pub proof fn lemma_rt_result(s: Seq<char>, i: int, r: ExecResultV)
    requires
        0 <= i,
        i + enc_result(r).len() <= s.len(),
        s.subrange(i, i + enc_result(r).len()) == enc_result(r),
        ents_ints_fit(r.retval),
        (match r.error {
            Some(e) => match e.extra {
                Some(m) => ents_ints_fit(m),
                None => true,
            },
            None => true,
        }),
    ensures
        p_result(s, i) == Some((r, i + enc_result(r).len())),
{
    let jend = i + enc_result(r).len();
    let p7 = l_uuid() + enc_str(r.uuid) + l_stdout() + enc_opt_str(r.stdout) + l_retval()
        + enc_map(r.retval) + l_error() + enc_opt_err(r.error);
    lemma_subrange_split(s, i, jend, p7, seq!['}']);
    let j7 = i + p7.len();
    let p6 = l_uuid() + enc_str(r.uuid) + l_stdout() + enc_opt_str(r.stdout) + l_retval()
        + enc_map(r.retval) + l_error();
    lemma_subrange_split(s, i, j7, p6, enc_opt_err(r.error));
    let j6 = i + p6.len();
    let p5 = l_uuid() + enc_str(r.uuid) + l_stdout() + enc_opt_str(r.stdout) + l_retval()
        + enc_map(r.retval);
    lemma_subrange_split(s, i, j6, p5, l_error());
    let j5 = i + p5.len();
    let p4 = l_uuid() + enc_str(r.uuid) + l_stdout() + enc_opt_str(r.stdout) + l_retval();
    lemma_subrange_split(s, i, j5, p4, enc_map(r.retval));
    let j4 = i + p4.len();
    let p3 = l_uuid() + enc_str(r.uuid) + l_stdout() + enc_opt_str(r.stdout);
    lemma_subrange_split(s, i, j4, p3, l_retval());
    let j3 = i + p3.len();
    let p2 = l_uuid() + enc_str(r.uuid) + l_stdout();
    lemma_subrange_split(s, i, j3, p2, enc_opt_str(r.stdout));
    let j2 = i + p2.len();
    let p1 = l_uuid() + enc_str(r.uuid);
    lemma_subrange_split(s, i, j2, p1, l_stdout());
    let j1 = i + p1.len();
    lemma_subrange_split(s, i, j1, l_uuid(), enc_str(r.uuid));
    let j0 = i + l_uuid().len();
    assert(p_lit(s, i, l_uuid()) == Some(j0));
    lemma_rt_string(s, j0, r.uuid);
    assert(p_lit(s, j1, l_stdout()) == Some(j2));
    lemma_rt_opt_str(s, j2, r.stdout);
    assert(p_lit(s, j3, l_retval()) == Some(j4));
    lemma_rt_map(s, j4, r.retval);
    assert(p_lit(s, j5, l_error()) == Some(j6));
    lemma_rt_opt_err(s, j6, r.error);
    assert(s[j7] == '}') by {
        assert(s.subrange(j7, jend)[0] == '}');
    }
    assert(p_lit(s, j7, seq!['}']) == Some(jend)) by {
        assert(s.subrange(j7, jend) =~= seq!['}']);
    }
}

/// Whether every integer a message's model carries lies within the machine
/// range; true of the model of every [`Message`] value.
pub open spec fn msg_ints_fit(m: MessageV) -> bool {
    &&& ents_ints_fit(m.metadata)
    &&& ents_ints_fit(m.params)
    &&& ents_ints_fit(m.result.retval)
    &&& match m.result.error {
        Some(e) => match e.extra {
            Some(x) => ents_ints_fit(x),
            None => true,
        },
        None => true,
    }
}

/// Parsing a whole encoded envelope yields the message model back.
#[verifier::rlimit(100)]
pub proof fn lemma_rt_message(s: Seq<char>, m: MessageV)
    requires
        s == enc_message(m),
        msg_ints_fit(m),
    ensures
        p_message(s) == Some(m),
{
    let jend = s.len() as int;
    let h = l_uuid() + enc_str(m.uuid) + l_entrypoint() + enc_str(m.entrypoint) + l_metadata();
    let t = enc_map(m.metadata) + l_params() + enc_map(m.params) + l_result() + enc_result(
        m.result,
    ) + seq!['}'];
    assert(s =~= h + t);
    assert(s.subrange(0, jend) =~= s);
    lemma_subrange_split(s, 0, jend, h, t);
    let jh = h.len() as int;
    lemma_rt_message_head(s, m, jh);
    lemma_rt_message_tail(s, m, jh, jend);
    let j4 = jh;
    let j5 = j4 + enc_map(m.metadata).len();
    let j6 = j5 + l_params().len();
    let j7 = j6 + enc_map(m.params).len();
    let j8 = j7 + l_result().len();
    let j9 = j8 + enc_result(m.result).len();
    assert(jend == j9 + 1);
}

/// The first half of the envelope parses into the message's identifier,
/// entrypoint and the start of its metadata.
proof fn lemma_rt_message_head(s: Seq<char>, m: MessageV, jh: int)
    requires
        jh == (l_uuid() + enc_str(m.uuid) + l_entrypoint() + enc_str(m.entrypoint)
            + l_metadata()).len(),
        jh <= s.len(),
        s.subrange(0, jh) == l_uuid() + enc_str(m.uuid) + l_entrypoint() + enc_str(m.entrypoint)
            + l_metadata(),
    ensures
        ({
            let j0 = l_uuid().len() as int;
            let j1 = j0 + enc_str(m.uuid).len();
            let j2 = j1 + l_entrypoint().len();
            let j3 = j2 + enc_str(m.entrypoint).len();
            &&& p_lit(s, 0, l_uuid()) == Some(j0)
            &&& p_string(s, j0) == Some((m.uuid, j1))
            &&& p_lit(s, j1, l_entrypoint()) == Some(j2)
            &&& p_string(s, j2) == Some((m.entrypoint, j3))
            &&& p_lit(s, j3, l_metadata()) == Some(jh)
        }),
{
    let p3 = l_uuid() + enc_str(m.uuid) + l_entrypoint() + enc_str(m.entrypoint);
    lemma_subrange_split(s, 0, jh, p3, l_metadata());
    let j3 = p3.len() as int;
    let p2 = l_uuid() + enc_str(m.uuid) + l_entrypoint();
    lemma_subrange_split(s, 0, j3, p2, enc_str(m.entrypoint));
    let j2 = p2.len() as int;
    let p1 = l_uuid() + enc_str(m.uuid);
    lemma_subrange_split(s, 0, j2, p1, l_entrypoint());
    let j1 = p1.len() as int;
    lemma_subrange_split(s, 0, j1, l_uuid(), enc_str(m.uuid));
    let j0 = l_uuid().len() as int;
    assert(p_lit(s, 0, l_uuid()) == Some(j0));
    lemma_rt_string(s, j0, m.uuid);
    assert(p_lit(s, j1, l_entrypoint()) == Some(j2));
    lemma_rt_string(s, j2, m.entrypoint);
    assert(p_lit(s, j3, l_metadata()) == Some(jh));
}

/// The second half of the envelope parses into the message's maps and its
/// embedded result, ending at the text's end.
#[verifier::rlimit(100)]
proof fn lemma_rt_message_tail(s: Seq<char>, m: MessageV, jh: int, jend: int)
    requires
        0 <= jh,
        jend == s.len(),
        jh + (enc_map(m.metadata) + l_params() + enc_map(m.params) + l_result() + enc_result(
            m.result,
        ) + seq!['}']).len() == jend,
        s.subrange(jh, jend) == enc_map(m.metadata) + l_params() + enc_map(m.params) + l_result()
            + enc_result(m.result) + seq!['}'],
        msg_ints_fit(m),
    ensures
        ({
            let j5 = jh + enc_map(m.metadata).len();
            let j6 = j5 + l_params().len();
            let j7 = j6 + enc_map(m.params).len();
            let j8 = j7 + l_result().len();
            let j9 = j8 + enc_result(m.result).len();
            &&& p_map(s, jh) == Some((m.metadata, j5))
            &&& p_lit(s, j5, l_params()) == Some(j6)
            &&& p_map(s, j6) == Some((m.params, j7))
            &&& p_lit(s, j7, l_result()) == Some(j8)
            &&& p_result(s, j8) == Some((m.result, j9))
            &&& p_lit(s, j9, seq!['}']) == Some(jend)
        }),
{
    let p4 = enc_map(m.metadata) + l_params() + enc_map(m.params) + l_result() + enc_result(
        m.result,
    );
    assert(s.subrange(jh, jend) == p4 + seq!['}']);
    lemma_subrange_split(s, jh, jend, p4, seq!['}']);
    let j9 = jh + p4.len();
    let p3 = enc_map(m.metadata) + l_params() + enc_map(m.params) + l_result();
    lemma_subrange_split(s, jh, j9, p3, enc_result(m.result));
    let j8 = jh + p3.len();
    let p2 = enc_map(m.metadata) + l_params() + enc_map(m.params);
    lemma_subrange_split(s, jh, j8, p2, l_result());
    let j7 = jh + p2.len();
    let p1 = enc_map(m.metadata) + l_params();
    lemma_subrange_split(s, jh, j7, p1, enc_map(m.params));
    let j6 = jh + p1.len();
    lemma_subrange_split(s, jh, j6, enc_map(m.metadata), l_params());
    let j5 = jh + enc_map(m.metadata).len();
    lemma_rt_map(s, jh, m.metadata);
    assert(p_lit(s, j5, l_params()) == Some(j6));
    lemma_rt_map(s, j6, m.params);
    assert(p_lit(s, j7, l_result()) == Some(j8));
    lemma_rt_result(s, j8, m.result);
    assert(s[j9] == '}') by {
        assert(s.subrange(j9, jend)[0] == '}');
    }
    assert(p_lit(s, j9, seq!['}']) == Some(jend)) by {
        assert(s.subrange(j9, jend) =~= seq!['}']);
    }
}

/// The round trip at the level of models: decoding an encoded well-formed
/// message yields it back, field for field.
pub proof fn lemma_round_trip(m: MessageV)
    requires
        m.wf(),
        msg_ints_fit(m),
    ensures
        spec_decode(enc_message(m)) == Some(m),
{
    lemma_rt_message(enc_message(m), m);
    assert(parsed_wf(m));
    assert(ExecResultV { uuid: m.uuid, ..m.result } == m.result);
    assert(MessageV { result: ExecResultV { uuid: m.uuid, ..m.result }, ..m } == m);
}

/// Every integer a real message carries is a machine integer.
pub proof fn lemma_message_ints_fit(m: &Message)
    ensures
        msg_ints_fit(m@),
{
    lemma_ents_fit(m.metadata.entries@);
    lemma_ents_fit(m.params.entries@);
    lemma_ents_fit(m.result.retval.entries@);
    match m.result.error {
        Some(ref e) => match e.extra {
            Some(ref x) => {
                lemma_ents_fit(x.entries@);
            },
            None => {},
        },
        None => {},
    }
}

/// The entries of an executable map only hold machine integers.
pub proof fn lemma_ents_fit(es: Seq<Entry>)
    ensures
        ents_ints_fit(ents_view(es)),
{
    assert forall|t: int| 0 <= t < ents_view(es).len() implies int_fits(
        #[trigger] ents_view(es)[t].1,
    ) by {
        match es[t].val {
            Value::Int(i) => {
                assert(ents_view(es)[t].1 == ValueV::Int(i as int));
            },
            _ => {},
        }
    }
}

/// The round trip for executable messages: encoding then decoding a
/// well-formed message yields a field-for-field identical message.
pub proof fn lemma_round_trip_message(m: &Message)
    requires
        m.wf(),
    ensures
        spec_decode(enc_message(m@)) == Some(m@),
{
    lemma_message_ints_fit(m);
    lemma_round_trip(m@);
}


// ---------------------------------------------------------------------------
// Broker configuration text: an object of string options.
// ---------------------------------------------------------------------------

/// The model of a list of configuration options.
pub open spec fn pairs_view(s: Seq<(String, String)>) -> Seq<(Seq<char>, Seq<char>)> {
    Seq::new(s.len(), |i: int| (s[i].0@, s[i].1@))
}

/// What configuration text denotes: an object whose values are all strings,
/// spanning the whole text.
pub open spec fn spec_config(s: Seq<char>) -> Option<Seq<(Seq<char>, Seq<char>)>> {
    match p_map(s, 0) {
        Some(t) => if t.1 == s.len() && (forall|i: int|
            0 <= i < t.0.len() ==> #[trigger] t.0[i].1 is Str) {
            Some(
                Seq::new(
                    t.0.len(),
                    |i: int|
                        (
                            t.0[i].0,
                            match t.0[i].1 {
                                ValueV::Str(x) => x,
                                _ => Seq::empty(),
                            },
                        ),
                ),
            )
        } else {
            None
        },
        None => None,
    }
}

/// Parses broker configuration text: an object binding option names to
/// string values. Anything else is refused with a serialization error.
pub fn parse_config(text: &str) -> (r: Result<Vec<(String, String)>, KserErrors>)
    ensures
        (match r {
            Ok(v) => spec_config(text@) == Some(pairs_view(v@)),
            Err(e) => spec_config(text@) is None && (e matches KserErrors::JSONError(_)),
        }),
{
    let ch = str_to_chars(text);
    let (ents, j) = match e_map(&ch, 0) {
        Some(t) => t,
        None => {
            return Err(KserErrors::JSONError("configuration is not an object".to_owned()));
        },
    };
    if j != ch.len() {
        return Err(KserErrors::JSONError("configuration is not an object".to_owned()));
    }
    let n = ents.len();
    let mut out: Vec<(String, String)> = Vec::new();
    let mut i: usize = 0;
    while i < n
        invariant
            i <= n,
            n == ents@.len(),
            out@.len() == i,
            p_map(text@, 0) == Some((ents_view(ents@), text@.len() as int)),
            forall|t: int| 0 <= t < i ==> #[trigger] ents_view(ents@)[t].1 is Str,
            forall|t: int|
                0 <= t < i ==> #[trigger] pairs_view(out@)[t] == (
                    ents_view(ents@)[t].0,
                    match ents_view(ents@)[t].1 {
                        ValueV::Str(x) => x,
                        _ => Seq::<char>::empty(),
                    },
                ),
        decreases n - i,
    {
        let key = ents[i].key.clone();
        let ghost kv = key@;
        match ents[i].val {
            Value::Str(ref s) => {
                let sval = s.clone();
                let ghost sv = sval@;
                let ghost prev = out@;
                out.push((key, sval));
                proof {
                    assert(ents_view(ents@)[i as int] == (
                        ents@[i as int].key@,
                        ents@[i as int].val@,
                    ));
                    assert(ents@[i as int].val@ == ValueV::Str(sv));
                    assert(kv == ents@[i as int].key@);
                    assert(pairs_view(out@)[i as int] == (kv, sv));
                    assert forall|t: int| 0 <= t < i + 1 implies #[trigger] pairs_view(out@)[t]
                        == (
                        ents_view(ents@)[t].0,
                        match ents_view(ents@)[t].1 {
                            ValueV::Str(x) => x,
                            _ => Seq::<char>::empty(),
                        },
                    ) by {
                        if t < i as int {
                            assert(out@[t] == prev[t]);
                            assert(pairs_view(prev)[t] == (
                                ents_view(ents@)[t].0,
                                match ents_view(ents@)[t].1 {
                                    ValueV::Str(x) => x,
                                    _ => Seq::<char>::empty(),
                                },
                            ));
                            assert(pairs_view(out@)[t] == pairs_view(prev)[t]);
                        }
                    }
                    assert forall|t: int| 0 <= t < i + 1 implies #[trigger] ents_view(ents@)[t].1
                        is Str by {
                    }
                }
            },
            _ => {
                proof {
                    assert(ents_view(ents@)[i as int].1 == ents@[i as int].val@);
                    assert(!(ents_view(ents@)[i as int].1 is Str));
                }
                return Err(
                    KserErrors::JSONError("configuration values must be strings".to_owned()),
                );
            },
        }
        i += 1;
    }
    proof {
        assert(pairs_view(out@) =~= Seq::new(
            ents_view(ents@).len(),
            |t: int|
                (
                    ents_view(ents@)[t].0,
                    match ents_view(ents@)[t].1 {
                        ValueV::Str(x) => x,
                        _ => Seq::<char>::empty(),
                    },
                ),
        ));
    }
    Ok(out)
}

} // verus!
