//! The control-message codec: one operation per line, as one JSON object.
//!
//! The wire form of an operation is a single JSON object whose one key names
//! the operation kind:
//!
//! - `{"Config":{"stun_servers":[..],"http_routes":{..}}}`
//! - `{"GetOfferSDP":{"channel_name":".."}}`
//! - `{"OfferSDP":".."}`, `{"AnswerSDP":".."}`, `{"Candidate":".."}`
//!
//! The encoder emits the canonical form: no whitespace, strings escaped with
//! `\"`, `\\`, `\n`, `\r`, `\t` and `\u00..` for the remaining control
//! bytes. The decoder accepts exactly the canonical form and fails with
//! `MalformedMessage` on anything else; the codec enforces no ordering, only
//! well-formedness. Framing is one operation per line.

use vstd::prelude::*;

use crate::errors::TunnelError;
use crate::ops::{ConfigData, ConfigModel, ControlOperation, OpModel};
use crate::routes::{RouteEntry, RouteEntryModel};

verus! {

pub const QUOTE: u8 = 34;

pub const BACKSLASH: u8 = 92;

pub const LBRACE: u8 = 123;

pub const RBRACE: u8 = 125;

pub const LBRACKET: u8 = 91;

pub const RBRACKET: u8 = 93;

pub const COLON: u8 = 58;

pub const COMMA: u8 = 44;

pub const NEWLINE: u8 = 10;

pub const CARRIAGE_RETURN: u8 = 13;

pub const TAB: u8 = 9;

/// The lowercase letters `n`, `r`, `t`, `u` used in escapes.
pub const LOWER_N: u8 = 110;

pub const LOWER_R: u8 = 114;

pub const LOWER_T: u8 = 116;

pub const LOWER_U: u8 = 117;

pub const DIGIT_ZERO: u8 = 48;

/// The lowercase hex digit for a value below sixteen.
pub open spec fn spec_hex_digit(n: u8) -> u8 {
    if n < 10 {
        (48 + n) as u8
    } else {
        (87 + n) as u8
    }
}

/// How one byte of string content is written: itself, a two-byte escape, or
/// a `\u00..` escape for the remaining control bytes.
pub open spec fn spec_escape_byte(b: u8) -> Seq<u8> {
    if b == QUOTE {
        seq![BACKSLASH, QUOTE]
    } else if b == BACKSLASH {
        seq![BACKSLASH, BACKSLASH]
    } else if b == NEWLINE {
        seq![BACKSLASH, LOWER_N]
    } else if b == CARRIAGE_RETURN {
        seq![BACKSLASH, LOWER_R]
    } else if b == TAB {
        seq![BACKSLASH, LOWER_T]
    } else if b < 32 {
        seq![
            BACKSLASH,
            LOWER_U,
            DIGIT_ZERO,
            DIGIT_ZERO,
            spec_hex_digit(b / 16),
            spec_hex_digit(b % 16),
        ]
    } else {
        seq![b]
    }
}

/// The escaped form of a whole string.
pub open spec fn spec_escape(s: Seq<u8>) -> Seq<u8>
    decreases s.len(),
{
    if s.len() == 0 {
        Seq::empty()
    } else {
        spec_escape_byte(s[0]) + spec_escape(s.drop_first())
    }
}

/// A quoted, escaped JSON string.
pub open spec fn spec_quoted(s: Seq<u8>) -> Seq<u8> {
    seq![QUOTE] + spec_escape(s) + seq![QUOTE]
}

/// Escaping distributes over appending one byte at the end.
pub proof fn lemma_escape_snoc(s: Seq<u8>, b: u8)
    ensures
        spec_escape(s.push(b)) == spec_escape(s) + spec_escape_byte(b),
    decreases s.len(),
{
    if s.len() == 0 {
        assert(s.push(b)[0] == b);
        assert(s.push(b).drop_first() =~= Seq::<u8>::empty());
        assert(spec_escape(s.push(b)) == spec_escape_byte(b) + spec_escape(
            s.push(b).drop_first(),
        ));
        assert(spec_escape_byte(b) + Seq::<u8>::empty() =~= spec_escape_byte(b));
        assert(spec_escape(s) + spec_escape_byte(b) =~= spec_escape_byte(b));
    } else {
        assert(s.push(b)[0] == s[0]);
        assert(s.push(b).drop_first() =~= s.drop_first().push(b));
        lemma_escape_snoc(s.drop_first(), b);
        assert(spec_escape(s.push(b)) == spec_escape_byte(s[0]) + (spec_escape(s.drop_first())
            + spec_escape_byte(b)));
        assert(spec_escape_byte(s[0]) + (spec_escape(s.drop_first()) + spec_escape_byte(b)) =~= (
        spec_escape_byte(s[0]) + spec_escape(s.drop_first())) + spec_escape_byte(b));
    }
}

/// The bytes of `Config`.
pub open spec fn tag_config() -> Seq<u8> {
    seq![67u8, 111u8, 110u8, 102u8, 105u8, 103u8]
}

/// The bytes of `GetOfferSDP`.
pub open spec fn tag_get_offer() -> Seq<u8> {
    seq![71u8, 101u8, 116u8, 79u8, 102u8, 102u8, 101u8, 114u8, 83u8, 68u8, 80u8]
}

/// The bytes of `OfferSDP`.
pub open spec fn tag_offer() -> Seq<u8> {
    seq![79u8, 102u8, 102u8, 101u8, 114u8, 83u8, 68u8, 80u8]
}

/// The bytes of `AnswerSDP`.
pub open spec fn tag_answer() -> Seq<u8> {
    seq![65u8, 110u8, 115u8, 119u8, 101u8, 114u8, 83u8, 68u8, 80u8]
}

/// The bytes of `Candidate`.
pub open spec fn tag_candidate() -> Seq<u8> {
    seq![67u8, 97u8, 110u8, 100u8, 105u8, 100u8, 97u8, 116u8, 101u8]
}

/// The bytes of `channel_name`.
pub open spec fn field_channel_name() -> Seq<u8> {
    seq![99u8, 104u8, 97u8, 110u8, 110u8, 101u8, 108u8, 95u8, 110u8, 97u8, 109u8, 101u8]
}

/// The bytes of `stun_servers`.
pub open spec fn field_stun_servers() -> Seq<u8> {
    seq![115u8, 116u8, 117u8, 110u8, 95u8, 115u8, 101u8, 114u8, 118u8, 101u8, 114u8, 115u8]
}

/// The bytes of `http_routes`.
pub open spec fn field_http_routes() -> Seq<u8> {
    seq![104u8, 116u8, 116u8, 112u8, 95u8, 114u8, 111u8, 117u8, 116u8, 101u8, 115u8]
}

/// The bytes of `Config`.
fn tag_config_vec() -> (r: Vec<u8>)
    ensures
        r@ == tag_config(),
{
    let mut v: Vec<u8> = Vec::new();
    v.push(67);
    v.push(111);
    v.push(110);
    v.push(102);
    v.push(105);
    v.push(103);
    assert(v@ =~= tag_config());
    v
}

/// The bytes of `GetOfferSDP`.
fn tag_get_offer_vec() -> (r: Vec<u8>)
    ensures
        r@ == tag_get_offer(),
{
    let mut v: Vec<u8> = Vec::new();
    v.push(71);
    v.push(101);
    v.push(116);
    v.push(79);
    v.push(102);
    v.push(102);
    v.push(101);
    v.push(114);
    v.push(83);
    v.push(68);
    v.push(80);
    assert(v@ =~= tag_get_offer());
    v
}

/// The bytes of `OfferSDP`.
fn tag_offer_vec() -> (r: Vec<u8>)
    ensures
        r@ == tag_offer(),
{
    let mut v: Vec<u8> = Vec::new();
    v.push(79);
    v.push(102);
    v.push(102);
    v.push(101);
    v.push(114);
    v.push(83);
    v.push(68);
    v.push(80);
    assert(v@ =~= tag_offer());
    v
}

/// The bytes of `AnswerSDP`.
fn tag_answer_vec() -> (r: Vec<u8>)
    ensures
        r@ == tag_answer(),
{
    let mut v: Vec<u8> = Vec::new();
    v.push(65);
    v.push(110);
    v.push(115);
    v.push(119);
    v.push(101);
    v.push(114);
    v.push(83);
    v.push(68);
    v.push(80);
    assert(v@ =~= tag_answer());
    v
}

/// The bytes of `Candidate`.
fn tag_candidate_vec() -> (r: Vec<u8>)
    ensures
        r@ == tag_candidate(),
{
    let mut v: Vec<u8> = Vec::new();
    v.push(67);
    v.push(97);
    v.push(110);
    v.push(100);
    v.push(105);
    v.push(100);
    v.push(97);
    v.push(116);
    v.push(101);
    assert(v@ =~= tag_candidate());
    v
}

/// The bytes of `channel_name`.
fn field_channel_name_vec() -> (r: Vec<u8>)
    ensures
        r@ == field_channel_name(),
{
    let mut v: Vec<u8> = Vec::new();
    v.push(99);
    v.push(104);
    v.push(97);
    v.push(110);
    v.push(110);
    v.push(101);
    v.push(108);
    v.push(95);
    v.push(110);
    v.push(97);
    v.push(109);
    v.push(101);
    assert(v@ =~= field_channel_name());
    v
}

/// The bytes of `stun_servers`.
fn field_stun_servers_vec() -> (r: Vec<u8>)
    ensures
        r@ == field_stun_servers(),
{
    let mut v: Vec<u8> = Vec::new();
    v.push(115);
    v.push(116);
    v.push(117);
    v.push(110);
    v.push(95);
    v.push(115);
    v.push(101);
    v.push(114);
    v.push(118);
    v.push(101);
    v.push(114);
    v.push(115);
    assert(v@ =~= field_stun_servers());
    v
}

/// The bytes of `http_routes`.
fn field_http_routes_vec() -> (r: Vec<u8>)
    ensures
        r@ == field_http_routes(),
{
    let mut v: Vec<u8> = Vec::new();
    v.push(104);
    v.push(116);
    v.push(116);
    v.push(112);
    v.push(95);
    v.push(114);
    v.push(111);
    v.push(117);
    v.push(116);
    v.push(101);
    v.push(115);
    assert(v@ =~= field_http_routes());
    v
}


/// The lowercase hex digit for a value below sixteen.
fn hex_digit(n: u8) -> (r: u8)
    requires
        n < 16,
    ensures
        r == spec_hex_digit(n),
{
    if n < 10 {
        48 + n
    } else {
        87 + n
    }
}

/// Appends the escaped form of `s` to `dst`.
fn escape_into(dst: &mut Vec<u8>, s: &Vec<u8>)
    ensures
        final(dst)@ == old(dst)@ + spec_escape(s@),
{
    let ghost base = dst@;
    let n = s.len();
    let mut i: usize = 0;
    assert(dst@ =~= base + spec_escape(s@.take(0)));
    while i < n
        invariant
            0 <= i <= n,
            n == s@.len(),
            dst@ == base + spec_escape(s@.take(i as int)),
        decreases n - i,
    {
        let b = s[i];
        if b == QUOTE {
            dst.push(BACKSLASH);
            dst.push(QUOTE);
        } else if b == BACKSLASH {
            dst.push(BACKSLASH);
            dst.push(BACKSLASH);
        } else if b == NEWLINE {
            dst.push(BACKSLASH);
            dst.push(LOWER_N);
        } else if b == CARRIAGE_RETURN {
            dst.push(BACKSLASH);
            dst.push(LOWER_R);
        } else if b == TAB {
            dst.push(BACKSLASH);
            dst.push(LOWER_T);
        } else if b < 32 {
            dst.push(BACKSLASH);
            dst.push(LOWER_U);
            dst.push(DIGIT_ZERO);
            dst.push(DIGIT_ZERO);
            dst.push(hex_digit(b / 16));
            dst.push(hex_digit(b % 16));
        } else {
            dst.push(b);
        }
        proof {
            lemma_escape_snoc(s@.take(i as int), s@[i as int]);
            assert(s@.take(i + 1 as int) =~= s@.take(i as int).push(s@[i as int]));
            assert(dst@ =~= base + spec_escape(s@.take(i + 1 as int)));
        }
        i = i + 1;
    }
    assert(s@.take(n as int) =~= s@);
}

/// Appends the quoted, escaped form of `s` to `dst`.
fn push_quoted(dst: &mut Vec<u8>, s: &Vec<u8>)
    ensures
        final(dst)@ == old(dst)@ + spec_quoted(s@),
{
    let ghost base = dst@;
    dst.push(QUOTE);
    assert(dst@ =~= base + seq![QUOTE]);
    escape_into(dst, s);
    dst.push(QUOTE);
    assert(dst@ =~= base + spec_quoted(s@));
}

/// The items of a JSON array of strings, separated by commas.
pub open spec fn spec_strings_items(v: Seq<Seq<u8>>) -> Seq<u8>
    decreases v.len(),
{
    if v.len() == 0 {
        Seq::empty()
    } else if v.len() == 1 {
        spec_quoted(v[0])
    } else {
        spec_quoted(v[0]) + seq![COMMA] + spec_strings_items(v.drop_first())
    }
}

/// A whole JSON array of strings.
pub open spec fn spec_encode_strings(v: Seq<Seq<u8>>) -> Seq<u8> {
    seq![LBRACKET] + spec_strings_items(v) + seq![RBRACKET]
}

/// Array items distribute over appending one more string.
proof fn lemma_strings_items_snoc(v: Seq<Seq<u8>>, x: Seq<u8>)
    ensures
        spec_strings_items(v.push(x)) == if v.len() == 0 {
            spec_quoted(x)
        } else {
            spec_strings_items(v) + seq![COMMA] + spec_quoted(x)
        },
    decreases v.len(),
{
    if v.len() == 0 {
        assert(spec_strings_items(v.push(x)) =~= spec_quoted(x));
    } else {
        assert(v.push(x).drop_first() =~= v.drop_first().push(x));
        lemma_strings_items_snoc(v.drop_first(), x);
        if v.len() == 1 {
            assert(spec_strings_items(v.push(x)) =~= spec_strings_items(v) + seq![COMMA]
                + spec_quoted(x));
        } else {
            assert(spec_strings_items(v.push(x)) =~= spec_strings_items(v) + seq![COMMA]
                + spec_quoted(x));
        }
    }
}

/// Appends a JSON array holding each string of `v`, in order, to `dst`.
fn push_string_array(dst: &mut Vec<u8>, v: &Vec<Vec<u8>>)
    ensures
        final(dst)@ == old(dst)@ + spec_encode_strings(v.deep_view()),
{
    let ghost base = dst@;
    dst.push(LBRACKET);
    let n = v.len();
    let mut i: usize = 0;
    assert(dst@ =~= base + seq![LBRACKET] + spec_strings_items(v.deep_view().take(0)));
    while i < n
        invariant
            0 <= i <= n,
            n == v@.len(),
            dst@ == base + seq![LBRACKET] + spec_strings_items(v.deep_view().take(i as int)),
        decreases n - i,
    {
        if i > 0 {
            dst.push(COMMA);
        }
        push_quoted(dst, &v[i]);
        proof {
            assert(v@[i as int].deep_view() =~= v@[i as int]@);
            assert(v.deep_view().take(i + 1 as int) =~= v.deep_view().take(i as int).push(
                v@[i as int]@,
            ));
            lemma_strings_items_snoc(v.deep_view().take(i as int), v@[i as int]@);
            assert(dst@ =~= base + seq![LBRACKET] + spec_strings_items(
                v.deep_view().take(i + 1 as int),
            ));
        }
        i = i + 1;
    }
    assert(v.deep_view().take(n as int) =~= v.deep_view());
    dst.push(RBRACKET);
    assert(dst@ =~= base + spec_encode_strings(v.deep_view()));
}

/// The members of the route object: quoted key, colon, quoted origin,
/// separated by commas.
pub open spec fn spec_routes_items(v: Seq<RouteEntryModel>) -> Seq<u8>
    decreases v.len(),
{
    if v.len() == 0 {
        Seq::empty()
    } else if v.len() == 1 {
        spec_quoted(v[0].key) + seq![COLON] + spec_quoted(v[0].origin)
    } else {
        spec_quoted(v[0].key) + seq![COLON] + spec_quoted(v[0].origin) + seq![COMMA]
            + spec_routes_items(v.drop_first())
    }
}

/// A whole JSON object holding the route table.
pub open spec fn spec_encode_routes(v: Seq<RouteEntryModel>) -> Seq<u8> {
    seq![LBRACE] + spec_routes_items(v) + seq![RBRACE]
}

/// Route members distribute over appending one more entry.
proof fn lemma_routes_items_snoc(v: Seq<RouteEntryModel>, x: RouteEntryModel)
    ensures
        spec_routes_items(v.push(x)) == if v.len() == 0 {
            spec_quoted(x.key) + seq![COLON] + spec_quoted(x.origin)
        } else {
            spec_routes_items(v) + seq![COMMA] + spec_quoted(x.key) + seq![COLON] + spec_quoted(
                x.origin,
            )
        },
    decreases v.len(),
{
    if v.len() == 0 {
        assert(spec_routes_items(v.push(x)) =~= spec_quoted(x.key) + seq![COLON] + spec_quoted(
            x.origin,
        ));
    } else {
        assert(v.push(x).drop_first() =~= v.drop_first().push(x));
        lemma_routes_items_snoc(v.drop_first(), x);
        assert(spec_routes_items(v.push(x)) =~= spec_routes_items(v) + seq![COMMA] + spec_quoted(
            x.key,
        ) + seq![COLON] + spec_quoted(x.origin));
    }
}

/// Appends the route object of `v`, in order, to `dst`.
fn push_routes(dst: &mut Vec<u8>, v: &Vec<RouteEntry>)
    ensures
        final(dst)@ == old(dst)@ + spec_encode_routes(v.deep_view()),
{
    let ghost base = dst@;
    dst.push(LBRACE);
    let n = v.len();
    let mut i: usize = 0;
    assert(dst@ =~= base + seq![LBRACE] + spec_routes_items(v.deep_view().take(0)));
    while i < n
        invariant
            0 <= i <= n,
            n == v@.len(),
            dst@ == base + seq![LBRACE] + spec_routes_items(v.deep_view().take(i as int)),
        decreases n - i,
    {
        if i > 0 {
            dst.push(COMMA);
        }
        push_quoted(dst, &v[i].key);
        dst.push(COLON);
        push_quoted(dst, &v[i].origin);
        proof {
            assert(v.deep_view().take(i + 1 as int) =~= v.deep_view().take(i as int).push(
                v@[i as int].deep_view(),
            ));
            lemma_routes_items_snoc(v.deep_view().take(i as int), v@[i as int].deep_view());
            assert(dst@ =~= base + seq![LBRACE] + spec_routes_items(
                v.deep_view().take(i + 1 as int),
            ));
        }
        i = i + 1;
    }
    assert(v.deep_view().take(n as int) =~= v.deep_view());
    dst.push(RBRACE);
    assert(dst@ =~= base + spec_encode_routes(v.deep_view()));
}

/// The one-object wire form of an operation whose payload is a single
/// string.
pub open spec fn spec_wrap_simple(tag: Seq<u8>, payload: Seq<u8>) -> Seq<u8> {
    seq![LBRACE] + spec_quoted(tag) + seq![COLON] + spec_quoted(payload) + seq![RBRACE]
}

/// The canonical wire form of one control operation, without the line
/// terminator.
pub open spec fn spec_encode_op(m: OpModel) -> Seq<u8> {
    match m {
        OpModel::Offer(sdp) => spec_wrap_simple(tag_offer(), sdp),
        OpModel::Answer(sdp) => spec_wrap_simple(tag_answer(), sdp),
        OpModel::Candidate(c) => spec_wrap_simple(tag_candidate(), c),
        OpModel::RequestOffer(name) => seq![LBRACE] + spec_quoted(tag_get_offer()) + seq![COLON]
            + seq![LBRACE] + spec_quoted(field_channel_name()) + seq![COLON] + spec_quoted(name)
            + seq![RBRACE] + seq![RBRACE],
        OpModel::Config(c) => seq![LBRACE] + spec_quoted(tag_config()) + seq![COLON] + seq![LBRACE]
            + spec_quoted(field_stun_servers()) + seq![COLON] + spec_encode_strings(c.stun_servers)
            + seq![COMMA] + spec_quoted(field_http_routes()) + seq![COLON] + spec_encode_routes(
            c.http_routes,
        ) + seq![RBRACE] + seq![RBRACE],
    }
}

/// Encodes one operation into its canonical wire form, without the line
/// terminator.
pub fn encode_operation(op: &ControlOperation) -> (r: Vec<u8>)
    ensures
        r@ == spec_encode_op(op@),
{
    let mut dst: Vec<u8> = Vec::new();
    dst.push(LBRACE);
    match op {
        ControlOperation::Offer(sdp) => {
            let tag = tag_offer_vec();
            push_quoted(&mut dst, &tag);
            dst.push(COLON);
            push_quoted(&mut dst, sdp);
            dst.push(RBRACE);
            assert(dst@ =~= spec_encode_op(op@));
        },
        ControlOperation::Answer(sdp) => {
            let tag = tag_answer_vec();
            push_quoted(&mut dst, &tag);
            dst.push(COLON);
            push_quoted(&mut dst, sdp);
            dst.push(RBRACE);
            assert(dst@ =~= spec_encode_op(op@));
        },
        ControlOperation::Candidate(c) => {
            let tag = tag_candidate_vec();
            push_quoted(&mut dst, &tag);
            dst.push(COLON);
            push_quoted(&mut dst, c);
            dst.push(RBRACE);
            assert(dst@ =~= spec_encode_op(op@));
        },
        ControlOperation::RequestOffer(name) => {
            let tag = tag_get_offer_vec();
            push_quoted(&mut dst, &tag);
            dst.push(COLON);
            dst.push(LBRACE);
            let field = field_channel_name_vec();
            push_quoted(&mut dst, &field);
            dst.push(COLON);
            push_quoted(&mut dst, name);
            dst.push(RBRACE);
            dst.push(RBRACE);
            assert(dst@ =~= spec_encode_op(op@));
        },
        ControlOperation::Config(c) => {
            let tag = tag_config_vec();
            push_quoted(&mut dst, &tag);
            dst.push(COLON);
            dst.push(LBRACE);
            let stuns = field_stun_servers_vec();
            push_quoted(&mut dst, &stuns);
            dst.push(COLON);
            push_string_array(&mut dst, &c.stun_servers);
            dst.push(COMMA);
            let routes = field_http_routes_vec();
            push_quoted(&mut dst, &routes);
            dst.push(COLON);
            push_routes(&mut dst, &c.http_routes);
            dst.push(RBRACE);
            dst.push(RBRACE);
            assert(dst@ =~= spec_encode_op(op@));
        },
    }
    dst
}

/// The framed wire form: the canonical encoding followed by one newline.
pub open spec fn spec_frame_op(m: OpModel) -> Seq<u8> {
    spec_encode_op(m).push(NEWLINE)
}

/// Encodes one operation as one whole line, newline included. A writer must
/// write the returned bytes atomically, so that concurrent writers never
/// interleave partial lines.
pub fn frame_operation(op: &ControlOperation) -> (r: Vec<u8>)
    ensures
        r@ == spec_frame_op(op@),
{
    let mut dst = encode_operation(op);
    dst.push(NEWLINE);
    dst
}


/// True of a lowercase hex digit.
pub open spec fn spec_is_hex_lower(b: u8) -> bool {
    (48 <= b && b <= 57) || (97 <= b && b <= 102)
}

/// The value of a lowercase hex digit.
pub open spec fn spec_hex_val(b: u8) -> u8 {
    if b <= 57 {
        (b - 48) as u8
    } else {
        (b - 87) as u8
    }
}

/// Parses one escape sequence, starting after the backslash: the byte it
/// stands for and the position after it. Exactly the escapes the encoder
/// emits are accepted.
pub open spec fn spec_parse_escape(s: Seq<u8>, i: int) -> Option<(u8, int)> {
    if 0 <= i < s.len() {
        let c = s[i];
        if c == QUOTE {
            Some((QUOTE, i + 1))
        } else if c == BACKSLASH {
            Some((BACKSLASH, i + 1))
        } else if c == LOWER_N {
            Some((NEWLINE, i + 1))
        } else if c == LOWER_R {
            Some((CARRIAGE_RETURN, i + 1))
        } else if c == LOWER_T {
            Some((TAB, i + 1))
        } else if c == LOWER_U {
            if i + 5 <= s.len() && s[i + 1] == DIGIT_ZERO && s[i + 2] == DIGIT_ZERO
                && spec_is_hex_lower(s[i + 3]) && spec_is_hex_lower(s[i + 4]) {
                let b = (16 * spec_hex_val(s[i + 3]) + spec_hex_val(s[i + 4])) as u8;
                if b < 32 && b != NEWLINE && b != CARRIAGE_RETURN && b != TAB {
                    Some((b, i + 5))
                } else {
                    None
                }
            } else {
                None
            }
        } else {
            None
        }
    } else {
        None
    }
}

/// Parses the body of a JSON string, starting after the opening quote: the
/// decoded content and the position after the closing quote.
pub open spec fn spec_parse_str_body(s: Seq<u8>, i: int) -> Option<(Seq<u8>, int)>
    decreases s.len() - i,
{
    if !(0 <= i < s.len()) {
        None
    } else if s[i] == QUOTE {
        Some((Seq::empty(), i + 1))
    } else if s[i] == BACKSLASH {
        match spec_parse_escape(s, i + 1) {
            Some((c, j)) => if i < j && j <= s.len() {
                match spec_parse_str_body(s, j) {
                    Some((rest, k)) => Some((seq![c] + rest, k)),
                    None => None,
                }
            } else {
                None
            },
            None => None,
        }
    } else if s[i] < 32 {
        None
    } else {
        match spec_parse_str_body(s, i + 1) {
            Some((rest, k)) => Some((seq![s[i]] + rest, k)),
            None => None,
        }
    }
}

/// Parses a quoted JSON string starting at `i`.
pub open spec fn spec_parse_string(s: Seq<u8>, i: int) -> Option<(Seq<u8>, int)> {
    if 0 <= i < s.len() && s[i] == QUOTE {
        spec_parse_str_body(s, i + 1)
    } else {
        None
    }
}

/// A parsed string body ends after its starting position and within the
/// input.
pub proof fn lemma_str_body_advances(s: Seq<u8>, i: int)
    ensures
        spec_parse_str_body(s, i) matches Some(p) ==> i < p.1 <= s.len(),
    decreases s.len() - i,
{
    if 0 <= i < s.len() {
        if s[i] == BACKSLASH {
            match spec_parse_escape(s, i + 1) {
                Some((c, j)) => {
                    if i < j && j <= s.len() {
                        lemma_str_body_advances(s, j);
                    }
                },
                None => {},
            }
        } else if s[i] != QUOTE && s[i] >= 32 {
            lemma_str_body_advances(s, i + 1);
        }
    }
}

/// A parsed string ends after its starting position and within the input.
pub proof fn lemma_string_advances(s: Seq<u8>, i: int)
    ensures
        spec_parse_string(s, i) matches Some(p) ==> i < p.1 <= s.len(),
{
    lemma_str_body_advances(s, i + 1);
}

/// Parses the remainder of a string array after one item: either the closing
/// bracket or a comma and another item.
pub open spec fn spec_parse_array_rest(s: Seq<u8>, i: int) -> Option<(Seq<Seq<u8>>, int)>
    decreases s.len() - i,
{
    if !(0 <= i < s.len()) {
        None
    } else if s[i] == RBRACKET {
        Some((Seq::empty(), i + 1))
    } else if s[i] == COMMA {
        match spec_parse_string(s, i + 1) {
            Some((v, j)) => if i < j && j <= s.len() {
                match spec_parse_array_rest(s, j) {
                    Some((rest, k)) => Some((seq![v] + rest, k)),
                    None => None,
                }
            } else {
                None
            },
            None => None,
        }
    } else {
        None
    }
}

/// Parses a whole JSON array of strings starting at `i`.
pub open spec fn spec_parse_string_array(s: Seq<u8>, i: int) -> Option<(Seq<Seq<u8>>, int)> {
    if !(0 <= i < s.len()) || s[i] != LBRACKET {
        None
    } else if i + 1 < s.len() && s[i + 1] == RBRACKET {
        Some((Seq::empty(), i + 2))
    } else {
        match spec_parse_string(s, i + 1) {
            Some((v, j)) => match spec_parse_array_rest(s, j) {
                Some((rest, k)) => Some((seq![v] + rest, k)),
                None => None,
            },
            None => None,
        }
    }
}

/// Parses one `"key":"origin"` member of the route object.
pub open spec fn spec_parse_pair(s: Seq<u8>, i: int) -> Option<(RouteEntryModel, int)> {
    match spec_parse_string(s, i) {
        Some((key, j)) => if j < s.len() && s[j] == COLON {
            match spec_parse_string(s, j + 1) {
                Some((origin, k)) => Some((RouteEntryModel { key, origin }, k)),
                None => None,
            }
        } else {
            None
        },
        None => None,
    }
}

/// Parses the remainder of the route object after one member.
pub open spec fn spec_parse_routes_rest(s: Seq<u8>, i: int) -> Option<(Seq<RouteEntryModel>, int)>
    decreases s.len() - i,
{
    if !(0 <= i < s.len()) {
        None
    } else if s[i] == RBRACE {
        Some((Seq::empty(), i + 1))
    } else if s[i] == COMMA {
        match spec_parse_pair(s, i + 1) {
            Some((kv, j)) => if i < j && j <= s.len() {
                match spec_parse_routes_rest(s, j) {
                    Some((rest, k)) => Some((seq![kv] + rest, k)),
                    None => None,
                }
            } else {
                None
            },
            None => None,
        }
    } else {
        None
    }
}

/// Parses a whole route object starting at `i`.
pub open spec fn spec_parse_routes(s: Seq<u8>, i: int) -> Option<(Seq<RouteEntryModel>, int)> {
    if !(0 <= i < s.len()) || s[i] != LBRACE {
        None
    } else if i + 1 < s.len() && s[i + 1] == RBRACE {
        Some((Seq::empty(), i + 2))
    } else {
        match spec_parse_pair(s, i + 1) {
            Some((kv, j)) => match spec_parse_routes_rest(s, j) {
                Some((rest, k)) => Some((seq![kv] + rest, k)),
                None => None,
            },
            None => None,
        }
    }
}

/// The payload of the three operations that carry one string: a quoted
/// string and then the closing brace, ending the line.
pub open spec fn spec_decode_simple_payload(s: Seq<u8>, p: int) -> Option<Seq<u8>> {
    match spec_parse_string(s, p) {
        Some((v, k)) => if k + 1 == s.len() && s[k] == RBRACE {
            Some(v)
        } else {
            None
        },
        None => None,
    }
}

/// The payload of `GetOfferSDP`: an object with the one field
/// `channel_name`, then the closing brace, ending the line.
pub open spec fn spec_decode_get_offer_payload(s: Seq<u8>, p: int) -> Option<Seq<u8>> {
    if p < s.len() && s[p] == LBRACE {
        match spec_parse_string(s, p + 1) {
            Some((f, k)) => if f == field_channel_name() && k < s.len() && s[k] == COLON {
                match spec_parse_string(s, k + 1) {
                    Some((name, m)) => if m + 2 == s.len() && s[m] == RBRACE && s[m + 1]
                        == RBRACE {
                        Some(name)
                    } else {
                        None
                    },
                    None => None,
                }
            } else {
                None
            },
            None => None,
        }
    } else {
        None
    }
}

/// The payload of `Config`: an object with the fields `stun_servers` and
/// `http_routes` in that order, then the closing brace, ending the line.
pub open spec fn spec_decode_config_payload(s: Seq<u8>, p: int) -> Option<ConfigModel> {
    if p < s.len() && s[p] == LBRACE {
        match spec_parse_string(s, p + 1) {
            Some((f1, k)) => if f1 == field_stun_servers() && k < s.len() && s[k] == COLON {
                match spec_parse_string_array(s, k + 1) {
                    Some((stuns, m)) => if m < s.len() && s[m] == COMMA {
                        match spec_parse_string(s, m + 1) {
                            Some((f2, q)) => if f2 == field_http_routes() && q < s.len() && s[q]
                                == COLON {
                                match spec_parse_routes(s, q + 1) {
                                    Some((routes, w)) => if w + 2 == s.len() && s[w] == RBRACE
                                        && s[w + 1] == RBRACE {
                                        Some(
                                            ConfigModel {
                                                stun_servers: stuns,
                                                http_routes: routes,
                                            },
                                        )
                                    } else {
                                        None
                                    },
                                    None => None,
                                }
                            } else {
                                None
                            },
                            None => None,
                        }
                    } else {
                        None
                    },
                    None => None,
                }
            } else {
                None
            },
            None => None,
        }
    } else {
        None
    }
}

/// What one line decodes to: the operation whose canonical wire form the
/// line is, if it is one.
pub open spec fn spec_decode_op(s: Seq<u8>) -> Option<OpModel> {
    if s.len() == 0 || s[0] != LBRACE {
        None
    } else {
        match spec_parse_string(s, 1) {
            Some((tag, j)) => if !(j < s.len() && s[j] == COLON) {
                None
            } else if tag == tag_offer() {
                match spec_decode_simple_payload(s, j + 1) {
                    Some(v) => Some(OpModel::Offer(v)),
                    None => None,
                }
            } else if tag == tag_answer() {
                match spec_decode_simple_payload(s, j + 1) {
                    Some(v) => Some(OpModel::Answer(v)),
                    None => None,
                }
            } else if tag == tag_candidate() {
                match spec_decode_simple_payload(s, j + 1) {
                    Some(v) => Some(OpModel::Candidate(v)),
                    None => None,
                }
            } else if tag == tag_get_offer() {
                match spec_decode_get_offer_payload(s, j + 1) {
                    Some(name) => Some(OpModel::RequestOffer(name)),
                    None => None,
                }
            } else if tag == tag_config() {
                match spec_decode_config_payload(s, j + 1) {
                    Some(c) => Some(OpModel::Config(c)),
                    None => None,
                }
            } else {
                None
            },
            None => None,
        }
    }
}

/// True of a lowercase hex digit.
fn is_hex_lower(b: u8) -> (r: bool)
    ensures
        r == spec_is_hex_lower(b),
{
    (48 <= b && b <= 57) || (97 <= b && b <= 102)
}

/// The value of a lowercase hex digit.
fn hex_val(b: u8) -> (r: u8)
    requires
        spec_is_hex_lower(b),
    ensures
        r == spec_hex_val(b),
        r < 16,
{
    if b <= 57 {
        b - 48
    } else {
        b - 87
    }
}

/// Parses one escape sequence, starting after the backslash.
fn parse_escape(line: &Vec<u8>, i: usize) -> (r: Option<(u8, usize)>)
    ensures
        (match r {
            Some(p) => spec_parse_escape(line@, i as int) == Some((p.0, p.1 as int)) && i < p.1
                <= line@.len(),
            None => spec_parse_escape(line@, i as int) is None,
        }),
{
    if i >= line.len() {
        return None;
    }
    let c = line[i];
    if c == QUOTE {
        Some((QUOTE, i + 1))
    } else if c == BACKSLASH {
        Some((BACKSLASH, i + 1))
    } else if c == LOWER_N {
        Some((NEWLINE, i + 1))
    } else if c == LOWER_R {
        Some((CARRIAGE_RETURN, i + 1))
    } else if c == LOWER_T {
        Some((TAB, i + 1))
    } else if c == LOWER_U {
        if line.len() - i >= 5 && line[i + 1] == DIGIT_ZERO && line[i + 2] == DIGIT_ZERO
            && is_hex_lower(line[i + 3]) && is_hex_lower(line[i + 4]) {
            let b = 16 * hex_val(line[i + 3]) + hex_val(line[i + 4]);
            if b < 32 && b != NEWLINE && b != CARRIAGE_RETURN && b != TAB {
                Some((b, i + 5))
            } else {
                None
            }
        } else {
            None
        }
    } else {
        None
    }
}

/// Parses a quoted JSON string starting at `start`: the decoded content and
/// the position after the closing quote.
fn parse_string(line: &Vec<u8>, start: usize) -> (r: Option<(Vec<u8>, usize)>)
    ensures
        (match r {
            Some(p) => spec_parse_string(line@, start as int) == Some((p.0@, p.1 as int)) && start
                < p.1 <= line@.len(),
            None => spec_parse_string(line@, start as int) is None,
        }),
{
    if start >= line.len() || line[start] != QUOTE {
        return None;
    }
    let mut acc: Vec<u8> = Vec::new();
    let mut i: usize = start + 1;
    while i < line.len()
        invariant
            start + 1 <= i <= line@.len(),
            line@.len() > start,
            line@[start as int] == QUOTE,
            spec_parse_str_body(line@, start + 1 as int) == (match spec_parse_str_body(
                line@,
                i as int,
            ) {
                Some((t, j)) => Some((acc@ + t, j)),
                None => None,
            }),
        decreases line@.len() - i,
    {
        let b = line[i];
        if b == QUOTE {
            assert(spec_parse_str_body(line@, i as int) == Some((
                Seq::<u8>::empty(),
                i + 1 as int,
            )));
            assert(acc@ + Seq::<u8>::empty() =~= acc@);
            return Some((acc, i + 1));
        } else if b == BACKSLASH {
            match parse_escape(line, i + 1) {
                Some(pair) => {
                    let (c, j) = pair;
                    let ghost acc_old = acc@;
                    proof {
                        match spec_parse_str_body(line@, j as int) {
                            Some((rest, k)) => {
                                assert(acc_old + (seq![c] + rest) =~= acc_old.push(c) + rest);
                            },
                            None => {},
                        }
                    }
                    acc.push(c);
                    i = j;
                },
                None => {
                    return None;
                },
            }
        } else if b < 32 {
            return None;
        } else {
            let ghost acc_old = acc@;
            proof {
                match spec_parse_str_body(line@, i + 1 as int) {
                    Some((rest, k)) => {
                        assert(acc_old + (seq![b] + rest) =~= acc_old.push(b) + rest);
                    },
                    None => {},
                }
            }
            acc.push(b);
            i = i + 1;
        }
    }
    None
}

/// Parses a whole JSON array of strings starting at `start`.
fn parse_string_array(line: &Vec<u8>, start: usize) -> (r: Option<(Vec<Vec<u8>>, usize)>)
    ensures
        (match r {
            Some(p) => spec_parse_string_array(line@, start as int) == Some((
                p.0.deep_view(),
                p.1 as int,
            )) && start < p.1 <= line@.len(),
            None => spec_parse_string_array(line@, start as int) is None,
        }),
{
    if start >= line.len() || line[start] != LBRACKET {
        return None;
    }
    if start + 1 < line.len() && line[start + 1] == RBRACKET {
        let empty: Vec<Vec<u8>> = Vec::new();
        assert(empty.deep_view() =~= Seq::<Seq<u8>>::empty());
        return Some((empty, start + 2));
    }
    let mut acc: Vec<Vec<u8>> = Vec::new();
    let mut i: usize;
    match parse_string(line, start + 1) {
        Some(pair) => {
            let (v, j) = pair;
            let ghost v_model = v@;
            acc.push(v);
            assert(acc.deep_view() =~~= seq![v_model]);
            i = j;
        },
        None => {
            return None;
        },
    }
    proof {
        match spec_parse_array_rest(line@, i as int) {
            Some((rest, k)) => {
                assert(acc.deep_view() + rest =~= seq![acc.deep_view()[0]] + rest);
            },
            None => {},
        }
    }
    while i < line.len()
        invariant
            start < i <= line@.len(),
            spec_parse_string_array(line@, start as int) == (match spec_parse_array_rest(
                line@,
                i as int,
            ) {
                Some((rest, k)) => Some((acc.deep_view() + rest, k)),
                None => None,
            }),
        decreases line@.len() - i,
    {
        let b = line[i];
        if b == RBRACKET {
            assert(spec_parse_array_rest(line@, i as int) == Some((
                Seq::<Seq<u8>>::empty(),
                i + 1 as int,
            )));
            assert(acc.deep_view() + Seq::<Seq<u8>>::empty() =~= acc.deep_view());
            return Some((acc, i + 1));
        } else if b == COMMA {
            match parse_string(line, i + 1) {
                Some(pair) => {
                    let (v, j) = pair;
                    let ghost acc_old = acc.deep_view();
                    let ghost v_model = v@;
                    acc.push(v);
                    assert(acc.deep_view() =~~= acc_old.push(v_model));
                    proof {
                        match spec_parse_array_rest(line@, j as int) {
                            Some((rest, k)) => {
                                assert(acc_old + (seq![v_model] + rest) =~= acc_old.push(v_model)
                                    + rest);
                            },
                            None => {},
                        }
                    }
                    i = j;
                },
                None => {
                    return None;
                },
            }
        } else {
            return None;
        }
    }
    None
}

/// Parses one `"key":"origin"` member of the route object.
fn parse_pair(line: &Vec<u8>, start: usize) -> (r: Option<(RouteEntry, usize)>)
    ensures
        (match r {
            Some(p) => spec_parse_pair(line@, start as int) == Some((p.0@, p.1 as int)) && start
                < p.1 <= line@.len(),
            None => spec_parse_pair(line@, start as int) is None,
        }),
{
    match parse_string(line, start) {
        Some(pair) => {
            let (key, j) = pair;
            if j < line.len() && line[j] == COLON {
                match parse_string(line, j + 1) {
                    Some(pair2) => {
                        let (origin, k) = pair2;
                        Some((RouteEntry { key, origin }, k))
                    },
                    None => None,
                }
            } else {
                None
            }
        },
        None => None,
    }
}

/// Parses a whole route object starting at `start`.
fn parse_routes(line: &Vec<u8>, start: usize) -> (r: Option<(Vec<RouteEntry>, usize)>)
    ensures
        (match r {
            Some(p) => spec_parse_routes(line@, start as int) == Some((
                p.0.deep_view(),
                p.1 as int,
            )) && start < p.1 <= line@.len(),
            None => spec_parse_routes(line@, start as int) is None,
        }),
{
    if start >= line.len() || line[start] != LBRACE {
        return None;
    }
    if start + 1 < line.len() && line[start + 1] == RBRACE {
        let empty: Vec<RouteEntry> = Vec::new();
        assert(empty.deep_view() =~= Seq::<RouteEntryModel>::empty());
        return Some((empty, start + 2));
    }
    let mut acc: Vec<RouteEntry> = Vec::new();
    let mut i: usize;
    match parse_pair(line, start + 1) {
        Some(pair) => {
            let (kv, j) = pair;
            let ghost kv_model = kv@;
            acc.push(kv);
            assert(acc.deep_view() =~~= seq![kv_model]);
            i = j;
        },
        None => {
            return None;
        },
    }
    proof {
        match spec_parse_routes_rest(line@, i as int) {
            Some((rest, k)) => {
                assert(acc.deep_view() + rest =~= seq![acc.deep_view()[0]] + rest);
            },
            None => {},
        }
    }
    while i < line.len()
        invariant
            start < i <= line@.len(),
            spec_parse_routes(line@, start as int) == (match spec_parse_routes_rest(
                line@,
                i as int,
            ) {
                Some((rest, k)) => Some((acc.deep_view() + rest, k)),
                None => None,
            }),
        decreases line@.len() - i,
    {
        let b = line[i];
        if b == RBRACE {
            assert(spec_parse_routes_rest(line@, i as int) == Some((
                Seq::<RouteEntryModel>::empty(),
                i + 1 as int,
            )));
            assert(acc.deep_view() + Seq::<RouteEntryModel>::empty() =~= acc.deep_view());
            return Some((acc, i + 1));
        } else if b == COMMA {
            match parse_pair(line, i + 1) {
                Some(pair) => {
                    let (kv, j) = pair;
                    let ghost acc_old = acc.deep_view();
                    let ghost kv_model = kv@;
                    acc.push(kv);
                    assert(acc.deep_view() =~~= acc_old.push(kv_model));
                    proof {
                        match spec_parse_routes_rest(line@, j as int) {
                            Some((rest, k)) => {
                                assert(acc_old + (seq![kv_model] + rest) =~= acc_old.push(kv_model)
                                    + rest);
                            },
                            None => {},
                        }
                    }
                    i = j;
                },
                None => {
                    return None;
                },
            }
        } else {
            return None;
        }
    }
    None
}

/// Decodes one line into the operation whose canonical wire form it is;
/// fails with `MalformedMessage` exactly when the line is the wire form of
/// no operation.
pub fn decode_operation(line: &Vec<u8>) -> (r: Result<ControlOperation, TunnelError>)
    ensures
        (match r {
            Ok(op) => spec_decode_op(line@) == Some(op@),
            Err(e) => spec_decode_op(line@) is None && e == TunnelError::MalformedMessage,
        }),
{
    if line.len() == 0 || line[0] != LBRACE {
        return Err(TunnelError::MalformedMessage);
    }
    let parsed_tag = match parse_string(line, 1) {
        Some(pair) => pair,
        None => {
            return Err(TunnelError::MalformedMessage);
        },
    };
    let (tag, j) = parsed_tag;
    if !(j < line.len() && line[j] == COLON) {
        return Err(TunnelError::MalformedMessage);
    }
    let t_offer = tag_offer_vec();
    let t_answer = tag_answer_vec();
    let t_candidate = tag_candidate_vec();
    let t_get_offer = tag_get_offer_vec();
    let t_config = tag_config_vec();
    if crate::routes::bytes_eq(&tag, &t_offer) {
        match parse_string(line, j + 1) {
            Some(pair) => {
                let (v, k) = pair;
                if line.len() - k == 1 && line[k] == RBRACE {
                    Ok(ControlOperation::Offer(v))
                } else {
                    Err(TunnelError::MalformedMessage)
                }
            },
            None => Err(TunnelError::MalformedMessage),
        }
    } else if crate::routes::bytes_eq(&tag, &t_answer) {
        match parse_string(line, j + 1) {
            Some(pair) => {
                let (v, k) = pair;
                if line.len() - k == 1 && line[k] == RBRACE {
                    Ok(ControlOperation::Answer(v))
                } else {
                    Err(TunnelError::MalformedMessage)
                }
            },
            None => Err(TunnelError::MalformedMessage),
        }
    } else if crate::routes::bytes_eq(&tag, &t_candidate) {
        match parse_string(line, j + 1) {
            Some(pair) => {
                let (v, k) = pair;
                if line.len() - k == 1 && line[k] == RBRACE {
                    Ok(ControlOperation::Candidate(v))
                } else {
                    Err(TunnelError::MalformedMessage)
                }
            },
            None => Err(TunnelError::MalformedMessage),
        }
    } else if crate::routes::bytes_eq(&tag, &t_get_offer) {
        if !(j + 1 < line.len() && line[j + 1] == LBRACE) {
            return Err(TunnelError::MalformedMessage);
        }
        let f_name = field_channel_name_vec();
        match parse_string(line, j + 2) {
            Some(pair) => {
                let (f, k) = pair;
                if crate::routes::bytes_eq(&f, &f_name) && k < line.len() && line[k] == COLON {
                    match parse_string(line, k + 1) {
                        Some(pair2) => {
                            let (name, m) = pair2;
                            if line.len() - m == 2 && line[m] == RBRACE && line[m + 1] == RBRACE {
                                Ok(ControlOperation::RequestOffer(name))
                            } else {
                                Err(TunnelError::MalformedMessage)
                            }
                        },
                        None => Err(TunnelError::MalformedMessage),
                    }
                } else {
                    Err(TunnelError::MalformedMessage)
                }
            },
            None => Err(TunnelError::MalformedMessage),
        }
    } else if crate::routes::bytes_eq(&tag, &t_config) {
        if !(j + 1 < line.len() && line[j + 1] == LBRACE) {
            return Err(TunnelError::MalformedMessage);
        }
        let f_stuns = field_stun_servers_vec();
        let f_routes = field_http_routes_vec();
        match parse_string(line, j + 2) {
            Some(pair) => {
                let (f1, k) = pair;
                if !(crate::routes::bytes_eq(&f1, &f_stuns) && k < line.len() && line[k]
                    == COLON) {
                    return Err(TunnelError::MalformedMessage);
                }
                match parse_string_array(line, k + 1) {
                    Some(pair2) => {
                        let (stuns, m) = pair2;
                        if !(m < line.len() && line[m] == COMMA) {
                            return Err(TunnelError::MalformedMessage);
                        }
                        match parse_string(line, m + 1) {
                            Some(pair3) => {
                                let (f2, p) = pair3;
                                if !(crate::routes::bytes_eq(&f2, &f_routes) && p < line.len()
                                    && line[p] == COLON) {
                                    return Err(TunnelError::MalformedMessage);
                                }
                                match parse_routes(line, p + 1) {
                                    Some(pair4) => {
                                        let (routes, q) = pair4;
                                        if line.len() - q == 2 && line[q] == RBRACE && line[q + 1]
                                            == RBRACE {
                                            Ok(
                                                ControlOperation::Config(
                                                    ConfigData {
                                                        stun_servers: stuns,
                                                        http_routes: routes,
                                                    },
                                                ),
                                            )
                                        } else {
                                            Err(TunnelError::MalformedMessage)
                                        }
                                    },
                                    None => Err(TunnelError::MalformedMessage),
                                }
                            },
                            None => Err(TunnelError::MalformedMessage),
                        }
                    },
                    None => Err(TunnelError::MalformedMessage),
                }
            },
            None => Err(TunnelError::MalformedMessage),
        }
    } else {
        Err(TunnelError::MalformedMessage)
    }
}


/// The index of the first newline in `s`, if `s` holds one.
pub open spec fn spec_find_newline(s: Seq<u8>) -> Option<int> {
    if exists|i: int| 0 <= i < s.len() && s[i] == NEWLINE {
        Some(choose|i: int|
            0 <= i < s.len() && s[i] == NEWLINE && forall|j: int|
                0 <= j < i ==> s[j] != NEWLINE)
    } else {
        None
    }
}

/// The first full line of a buffer and the bytes after its newline, if the
/// buffer holds a full line.
pub open spec fn spec_take_line(s: Seq<u8>) -> Option<(Seq<u8>, Seq<u8>)> {
    match spec_find_newline(s) {
        Some(i) => Some((s.take(i), s.skip(i + 1))),
        None => None,
    }
}

proof fn lemma_find_newline_exists(s: Seq<u8>, i: int)
    requires
        0 <= i < s.len(),
        s[i] == NEWLINE,
        forall|j: int| 0 <= j < i ==> s[j] != NEWLINE,
    ensures
        spec_find_newline(s) == Some(i),
{
    assert(exists|k: int| 0 <= k < s.len() && s[k] == NEWLINE);
    let w = choose|k: int|
        0 <= k < s.len() && s[k] == NEWLINE && forall|j: int| 0 <= j < k ==> s[j] != NEWLINE;
    if w < i {
        assert(s[w] != NEWLINE);
    }
    if i < w {
        assert(s[i] != NEWLINE);
    }
}

/// Takes the first full line out of a read buffer: the bytes before the
/// first newline and the bytes after it. A reader keeps waiting while this
/// returns nothing and the stream is still open.
pub fn take_line(buf: &Vec<u8>) -> (r: Option<(Vec<u8>, Vec<u8>)>)
    ensures
        (match r {
            Some(p) => spec_take_line(buf@) == Some((p.0@, p.1@)),
            None => spec_take_line(buf@) is None,
        }),
{
    let n = buf.len();
    let mut i: usize = 0;
    while i < n
        invariant
            0 <= i <= n,
            n == buf@.len(),
            forall|j: int| 0 <= j < i ==> buf@[j] != NEWLINE,
        decreases n - i,
    {
        if buf[i] == NEWLINE {
            proof {
                lemma_find_newline_exists(buf@, i as int);
            }
            let mut lin: Vec<u8> = Vec::new();
            let mut rest: Vec<u8> = Vec::new();
            let mut j: usize = 0;
            while j < i
                invariant
                    0 <= j <= i < n,
                    n == buf@.len(),
                    lin@ == buf@.subrange(0, j as int),
                decreases i - j,
            {
                lin.push(buf[j]);
                assert(lin@ =~= buf@.subrange(0, j + 1 as int));
                j = j + 1;
            }
            let mut k: usize = i + 1;
            while k < n
                invariant
                    i + 1 <= k <= n,
                    n == buf@.len(),
                    rest@ == buf@.subrange(i + 1 as int, k as int),
                decreases n - k,
            {
                rest.push(buf[k]);
                assert(rest@ =~= buf@.subrange(i + 1 as int, k + 1 as int));
                k = k + 1;
            }
            assert(lin@ =~= buf@.take(i as int));
            assert(rest@ =~= buf@.skip(i + 1 as int));
            return Some((lin, rest));
        }
        i = i + 1;
    }
    assert(spec_find_newline(buf@) is None);
    None
}

/// What the end of the control stream means for a reader: fine on a line
/// boundary, `StreamClosed` when the stream ended amid an unterminated line.
pub fn finish_stream(leftover: &Vec<u8>) -> (r: Result<(), TunnelError>)
    ensures
        (match r {
            Ok(_) => leftover@.len() == 0,
            Err(e) => leftover@.len() > 0 && e == TunnelError::StreamClosed,
        }),
{
    if leftover.len() == 0 {
        Ok(())
    } else {
        Err(TunnelError::StreamClosed)
    }
}


/// Skipping twice is skipping the sum.
proof fn lemma_skip_skip(s: Seq<u8>, a: int, b: int)
    requires
        0 <= a,
        0 <= b,
        a + b <= s.len(),
    ensures
        s.skip(a).skip(b) == s.skip(a + b),
{
    assert(s.skip(a).skip(b) =~= s.skip(a + b));
}

/// The escaped body of `t`, followed by the closing quote, parses back to
/// exactly `t`.
proof fn lemma_parse_escaped_body(s: Seq<u8>, i: int, t: Seq<u8>, rest: Seq<u8>)
    requires
        0 <= i <= s.len(),
        s.skip(i) == spec_escape(t) + seq![QUOTE] + rest,
    ensures
        spec_parse_str_body(s, i) == Some((t, i + spec_escape(t).len() + 1)),
    decreases t.len(),
{
    assert(s.skip(i).len() == s.len() - i);
    if t.len() == 0 {
        assert(spec_escape(t) + seq![QUOTE] + rest =~= seq![QUOTE] + rest);
        assert(s[i] == s.skip(i)[0]);
        assert(s[i] == QUOTE);
        assert(t =~= Seq::<u8>::empty());
    } else {
        let b = t[0];
        let t2 = t.drop_first();
        let eb = spec_escape_byte(b);
        assert(spec_escape(t) == eb + spec_escape(t2));
        let tail = spec_escape(t2) + seq![QUOTE] + rest;
        assert(s.skip(i) =~= eb + tail);
        let j = i + eb.len();
        assert(j <= s.len());
        lemma_skip_skip(s, i, eb.len() as int);
        assert(s.skip(j) =~= tail);
        lemma_parse_escaped_body(s, j, t2, rest);
        assert(seq![b] + t2 =~= t);
        assert(forall|k: int| 0 <= k < eb.len() ==> s[i + k] == s.skip(i)[k] && s.skip(i)[k]
            == eb[k]);
        if b == QUOTE {
            assert(s[i] == BACKSLASH && s[i + 1] == QUOTE);
            assert(spec_parse_escape(s, i + 1) == Some((QUOTE, i + 2)));
        } else if b == BACKSLASH {
            assert(s[i] == BACKSLASH && s[i + 1] == BACKSLASH);
            assert(spec_parse_escape(s, i + 1) == Some((BACKSLASH, i + 2)));
        } else if b == NEWLINE {
            assert(s[i] == BACKSLASH && s[i + 1] == LOWER_N);
            assert(spec_parse_escape(s, i + 1) == Some((NEWLINE, i + 2)));
        } else if b == CARRIAGE_RETURN {
            assert(s[i] == BACKSLASH && s[i + 1] == LOWER_R);
            assert(spec_parse_escape(s, i + 1) == Some((CARRIAGE_RETURN, i + 2)));
        } else if b == TAB {
            assert(s[i] == BACKSLASH && s[i + 1] == LOWER_T);
            assert(spec_parse_escape(s, i + 1) == Some((TAB, i + 2)));
        } else if b < 32 {
            assert(s[i] == BACKSLASH && s[i + 1] == LOWER_U);
            assert(s[i + 2] == DIGIT_ZERO && s[i + 3] == DIGIT_ZERO);
            assert(s[i + 4] == spec_hex_digit(b / 16) && s[i + 5] == spec_hex_digit(b % 16));
            assert(b / 16 < 2);
            assert(spec_is_hex_lower(spec_hex_digit(b / 16)));
            assert(spec_is_hex_lower(spec_hex_digit(b % 16)));
            assert(spec_hex_val(spec_hex_digit(b / 16)) == b / 16);
            assert(spec_hex_val(spec_hex_digit(b % 16)) == b % 16);
            assert(16 * (b / 16) + (b % 16) == b);
            assert(spec_parse_escape(s, i + 1) == Some((b, i + 6)));
        } else {
            assert(s[i] == b);
            assert(b != QUOTE && b != BACKSLASH && b >= 32);
        }
    }
}

/// A quoted string parses back to exactly its content.
proof fn lemma_parse_quoted(s: Seq<u8>, i: int, t: Seq<u8>, rest: Seq<u8>)
    requires
        0 <= i <= s.len(),
        s.skip(i) == spec_quoted(t) + rest,
    ensures
        spec_parse_string(s, i) == Some((t, i + spec_quoted(t).len())),
{
    assert(s.skip(i).len() == s.len() - i);
    assert(s[i] == s.skip(i)[0]);
    assert(s[i] == QUOTE);
    lemma_skip_skip(s, i, 1);
    assert(s.skip(i + 1) =~= spec_escape(t) + seq![QUOTE] + rest);
    lemma_parse_escaped_body(s, i + 1, t, rest);
    assert(spec_quoted(t).len() == spec_escape(t).len() + 2);
}


/// The comma-prefixed tail form of the array items.
spec fn spec_strings_tail(v: Seq<Seq<u8>>) -> Seq<u8>
    decreases v.len(),
{
    if v.len() == 0 {
        Seq::empty()
    } else {
        seq![COMMA] + spec_quoted(v[0]) + spec_strings_tail(v.drop_first())
    }
}

/// A nonempty item list is its first item followed by the tail form of the
/// rest.
proof fn lemma_strings_items_as_tail(v: Seq<Seq<u8>>)
    requires
        v.len() > 0,
    ensures
        spec_strings_items(v) == spec_quoted(v[0]) + spec_strings_tail(v.drop_first()),
    decreases v.len(),
{
    if v.len() == 1 {
        assert(spec_strings_tail(v.drop_first()) =~= Seq::<u8>::empty());
        assert(spec_quoted(v[0]) + spec_strings_tail(v.drop_first()) =~= spec_quoted(v[0]));
    } else {
        lemma_strings_items_as_tail(v.drop_first());
        assert(spec_strings_items(v) =~= spec_quoted(v[0]) + spec_strings_tail(v.drop_first()));
    }
}

/// The tail form of remaining items, followed by the closing bracket, parses
/// back to exactly those items.
proof fn lemma_parse_array_rest(s: Seq<u8>, i: int, v: Seq<Seq<u8>>, rest: Seq<u8>)
    requires
        0 <= i <= s.len(),
        s.skip(i) == spec_strings_tail(v) + seq![RBRACKET] + rest,
    ensures
        spec_parse_array_rest(s, i) == Some((v, i + spec_strings_tail(v).len() + 1)),
    decreases v.len(),
{
    assert(s.skip(i).len() == s.len() - i);
    if v.len() == 0 {
        assert(spec_strings_tail(v) + seq![RBRACKET] + rest =~= seq![RBRACKET] + rest);
        assert(s[i] == s.skip(i)[0]);
        assert(s[i] == RBRACKET);
        assert(v =~= Seq::<Seq<u8>>::empty());
    } else {
        let v0 = v[0];
        let v2 = v.drop_first();
        assert(s.skip(i) =~= seq![COMMA] + (spec_quoted(v0) + (spec_strings_tail(v2)
            + seq![RBRACKET] + rest)));
        assert(s[i] == s.skip(i)[0]);
        assert(s[i] == COMMA);
        assert(s[i] != RBRACKET);
        lemma_skip_skip(s, i, 1);
        assert(s.skip(i + 1) =~= spec_quoted(v0) + (spec_strings_tail(v2) + seq![RBRACKET]
            + rest));
        lemma_parse_quoted(s, i + 1, v0, spec_strings_tail(v2) + seq![RBRACKET] + rest);
        let j = i + 1 + spec_quoted(v0).len();
        lemma_skip_skip(s, i + 1, spec_quoted(v0).len() as int);
        assert(s.skip(j) =~= spec_strings_tail(v2) + seq![RBRACKET] + rest);
        lemma_parse_array_rest(s, j, v2, rest);
        assert(seq![v0] + v2 =~= v);
        assert(spec_strings_tail(v).len() == 1 + spec_quoted(v0).len() + spec_strings_tail(
            v2,
        ).len());
    }
}

/// A whole encoded string array parses back to exactly its strings.
proof fn lemma_parse_encoded_array(s: Seq<u8>, i: int, v: Seq<Seq<u8>>, rest: Seq<u8>)
    requires
        0 <= i <= s.len(),
        s.skip(i) == spec_encode_strings(v) + rest,
    ensures
        spec_parse_string_array(s, i) == Some((v, i + spec_encode_strings(v).len())),
{
    assert(s.skip(i).len() == s.len() - i);
    assert(s[i] == s.skip(i)[0]);
    assert(s[i] == LBRACKET);
    if v.len() == 0 {
        assert(spec_encode_strings(v) + rest =~= seq![LBRACKET, RBRACKET] + rest);
        assert(s[i + 1] == s.skip(i)[1]);
        assert(s[i + 1] == RBRACKET);
        assert(v =~= Seq::<Seq<u8>>::empty());
    } else {
        lemma_strings_items_as_tail(v);
        let v0 = v[0];
        let v2 = v.drop_first();
        let after_first = spec_strings_tail(v2) + seq![RBRACKET] + rest;
        assert(s.skip(i) =~= seq![LBRACKET] + (spec_quoted(v0) + after_first));
        lemma_skip_skip(s, i, 1);
        assert(s.skip(i + 1) =~= spec_quoted(v0) + after_first);
        assert(s[i + 1] == s.skip(i)[1]);
        assert(s[i + 1] == QUOTE);
        assert(s[i + 1] != RBRACKET);
        lemma_parse_quoted(s, i + 1, v0, after_first);
        let j = i + 1 + spec_quoted(v0).len();
        lemma_skip_skip(s, i + 1, spec_quoted(v0).len() as int);
        assert(s.skip(j) =~= spec_strings_tail(v2) + seq![RBRACKET] + rest);
        lemma_parse_array_rest(s, j, v2, rest);
        assert(seq![v0] + v2 =~= v);
        assert(spec_encode_strings(v).len() == 2 + spec_quoted(v0).len() + spec_strings_tail(
            v2,
        ).len());
    }
}

/// One encoded route member.
spec fn spec_pair_bytes(e: RouteEntryModel) -> Seq<u8> {
    spec_quoted(e.key) + seq![COLON] + spec_quoted(e.origin)
}

/// The comma-prefixed tail form of the route members.
spec fn spec_routes_tail(v: Seq<RouteEntryModel>) -> Seq<u8>
    decreases v.len(),
{
    if v.len() == 0 {
        Seq::empty()
    } else {
        seq![COMMA] + spec_pair_bytes(v[0]) + spec_routes_tail(v.drop_first())
    }
}

/// A nonempty member list is its first member followed by the tail form of
/// the rest.
proof fn lemma_routes_items_as_tail(v: Seq<RouteEntryModel>)
    requires
        v.len() > 0,
    ensures
        spec_routes_items(v) == spec_pair_bytes(v[0]) + spec_routes_tail(v.drop_first()),
    decreases v.len(),
{
    if v.len() == 1 {
        assert(spec_routes_tail(v.drop_first()) =~= Seq::<u8>::empty());
        assert(spec_pair_bytes(v[0]) + spec_routes_tail(v.drop_first()) =~= spec_pair_bytes(
            v[0],
        ));
        assert(spec_routes_items(v) =~= spec_pair_bytes(v[0]));
    } else {
        lemma_routes_items_as_tail(v.drop_first());
        assert(spec_routes_items(v) =~= spec_pair_bytes(v[0]) + spec_routes_tail(v.drop_first()));
    }
}

/// An encoded route member parses back to exactly that entry.
proof fn lemma_parse_encoded_pair(s: Seq<u8>, i: int, e: RouteEntryModel, rest: Seq<u8>)
    requires
        0 <= i <= s.len(),
        s.skip(i) == spec_pair_bytes(e) + rest,
    ensures
        spec_parse_pair(s, i) == Some((e, i + spec_pair_bytes(e).len())),
{
    assert(s.skip(i).len() == s.len() - i);
    assert(s.skip(i) =~= spec_quoted(e.key) + (seq![COLON] + spec_quoted(e.origin) + rest));
    lemma_parse_quoted(s, i, e.key, seq![COLON] + spec_quoted(e.origin) + rest);
    let j = i + spec_quoted(e.key).len();
    lemma_skip_skip(s, i, spec_quoted(e.key).len() as int);
    assert(s.skip(j) =~= seq![COLON] + (spec_quoted(e.origin) + rest));
    assert(s[j] == s.skip(j)[0]);
    assert(s[j] == COLON);
    lemma_skip_skip(s, j, 1);
    assert(s.skip(j + 1) =~= spec_quoted(e.origin) + rest);
    lemma_parse_quoted(s, j + 1, e.origin, rest);
    assert(RouteEntryModel { key: e.key, origin: e.origin } == e);
}

/// The tail form of remaining members, followed by the closing brace, parses
/// back to exactly those members.
proof fn lemma_parse_routes_rest(s: Seq<u8>, i: int, v: Seq<RouteEntryModel>, rest: Seq<u8>)
    requires
        0 <= i <= s.len(),
        s.skip(i) == spec_routes_tail(v) + seq![RBRACE] + rest,
    ensures
        spec_parse_routes_rest(s, i) == Some((v, i + spec_routes_tail(v).len() + 1)),
    decreases v.len(),
{
    assert(s.skip(i).len() == s.len() - i);
    if v.len() == 0 {
        assert(spec_routes_tail(v) + seq![RBRACE] + rest =~= seq![RBRACE] + rest);
        assert(s[i] == s.skip(i)[0]);
        assert(s[i] == RBRACE);
        assert(v =~= Seq::<RouteEntryModel>::empty());
    } else {
        let v0 = v[0];
        let v2 = v.drop_first();
        assert(s.skip(i) =~= seq![COMMA] + (spec_pair_bytes(v0) + (spec_routes_tail(v2)
            + seq![RBRACE] + rest)));
        assert(s[i] == s.skip(i)[0]);
        assert(s[i] == COMMA);
        assert(s[i] != RBRACE);
        lemma_skip_skip(s, i, 1);
        assert(s.skip(i + 1) =~= spec_pair_bytes(v0) + (spec_routes_tail(v2) + seq![RBRACE]
            + rest));
        lemma_parse_encoded_pair(s, i + 1, v0, spec_routes_tail(v2) + seq![RBRACE] + rest);
        let j = i + 1 + spec_pair_bytes(v0).len();
        lemma_skip_skip(s, i + 1, spec_pair_bytes(v0).len() as int);
        assert(s.skip(j) =~= spec_routes_tail(v2) + seq![RBRACE] + rest);
        lemma_parse_routes_rest(s, j, v2, rest);
        assert(seq![v0] + v2 =~= v);
        assert(spec_routes_tail(v).len() == 1 + spec_pair_bytes(v0).len() + spec_routes_tail(
            v2,
        ).len());
    }
}

/// A whole encoded route object parses back to exactly its entries.
proof fn lemma_parse_encoded_routes(s: Seq<u8>, i: int, v: Seq<RouteEntryModel>, rest: Seq<u8>)
    requires
        0 <= i <= s.len(),
        s.skip(i) == spec_encode_routes(v) + rest,
    ensures
        spec_parse_routes(s, i) == Some((v, i + spec_encode_routes(v).len())),
{
    assert(s.skip(i).len() == s.len() - i);
    assert(s[i] == s.skip(i)[0]);
    assert(s[i] == LBRACE);
    if v.len() == 0 {
        assert(spec_encode_routes(v) + rest =~= seq![LBRACE, RBRACE] + rest);
        assert(s[i + 1] == s.skip(i)[1]);
        assert(s[i + 1] == RBRACE);
        assert(v =~= Seq::<RouteEntryModel>::empty());
    } else {
        lemma_routes_items_as_tail(v);
        let v0 = v[0];
        let v2 = v.drop_first();
        let after_first = spec_routes_tail(v2) + seq![RBRACE] + rest;
        assert(s.skip(i) =~= seq![LBRACE] + (spec_pair_bytes(v0) + after_first));
        lemma_skip_skip(s, i, 1);
        assert(s.skip(i + 1) =~= spec_pair_bytes(v0) + after_first);
        assert(s[i + 1] == s.skip(i)[1]);
        assert(s[i + 1] == QUOTE);
        assert(s[i + 1] != RBRACE);
        lemma_parse_encoded_pair(s, i + 1, v0, after_first);
        let j = i + 1 + spec_pair_bytes(v0).len();
        lemma_skip_skip(s, i + 1, spec_pair_bytes(v0).len() as int);
        assert(s.skip(j) =~= spec_routes_tail(v2) + seq![RBRACE] + rest);
        lemma_parse_routes_rest(s, j, v2, rest);
        assert(seq![v0] + v2 =~= v);
        assert(spec_encode_routes(v).len() == 2 + spec_pair_bytes(v0).len() + spec_routes_tail(
            v2,
        ).len());
    }
}


/// The common head of every encoded line: the brace, the quoted tag, and
/// the colon, with the payload after them.
proof fn lemma_decode_tagged(s: Seq<u8>, tag: Seq<u8>, payload: Seq<u8>)
    requires
        s == seq![LBRACE] + (spec_quoted(tag) + (seq![COLON] + payload)),
    ensures
        s.len() > 0 && s[0] == LBRACE,
        spec_parse_string(s, 1) == Some((tag, 1 + spec_quoted(tag).len() as int)),
        1 + spec_quoted(tag).len() < s.len(),
        s[1 + spec_quoted(tag).len() as int] == COLON,
        s.skip(2 + spec_quoted(tag).len() as int) == payload,
{
    assert(s[0] == LBRACE);
    assert(s.skip(0) =~= s);
    lemma_skip_head(s, 0, seq![LBRACE], spec_quoted(tag) + (seq![COLON] + payload));
    lemma_parse_quoted(s, 1, tag, seq![COLON] + payload);
    lemma_skip_head(s, 1, spec_quoted(tag), seq![COLON] + payload);
    let j: int = 1 + spec_quoted(tag).len() as int;
    assert(s[j] == s.skip(j)[0] && s.skip(j)[0] == COLON);
    lemma_skip_head(s, j, seq![COLON], payload);
}

/// A single quoted string and the closing brace decode as the simple
/// payload.
proof fn lemma_simple_payload(s: Seq<u8>, p: int, v: Seq<u8>)
    requires
        0 <= p <= s.len(),
        s.skip(p) == spec_quoted(v) + seq![RBRACE],
    ensures
        spec_decode_simple_payload(s, p) == Some(v),
{
    lemma_parse_quoted(s, p, v, seq![RBRACE]);
    lemma_skip_head(s, p, spec_quoted(v), seq![RBRACE]);
    let k: int = p + spec_quoted(v).len() as int;
    assert(s[k] == s.skip(k)[0] && s.skip(k)[0] == RBRACE);
    assert(s.skip(k).len() == 1);
    assert(k + 1 == s.len());
}

/// The encoded channel-name object decodes as the `GetOfferSDP` payload.
proof fn lemma_get_offer_payload(s: Seq<u8>, p: int, name: Seq<u8>)
    requires
        0 <= p <= s.len(),
        s.skip(p) == seq![LBRACE] + (spec_quoted(field_channel_name()) + (seq![COLON] + (
        spec_quoted(name) + seq![RBRACE, RBRACE]))),
    ensures
        spec_decode_get_offer_payload(s, p) == Some(name),
{
    let fq = spec_quoted(field_channel_name());
    let nq = spec_quoted(name);
    assert(s.skip(p).len() == s.len() - p);
    assert(s[p] == s.skip(p)[0] && s.skip(p)[0] == LBRACE);
    lemma_skip_head(s, p, seq![LBRACE], fq + (seq![COLON] + (nq + seq![RBRACE, RBRACE])));
    lemma_parse_quoted(s, p + 1, field_channel_name(), seq![COLON] + (nq + seq![RBRACE, RBRACE]));
    lemma_skip_head(s, p + 1, fq, seq![COLON] + (nq + seq![RBRACE, RBRACE]));
    let k: int = p + 1 + fq.len() as int;
    assert(s[k] == s.skip(k)[0] && s.skip(k)[0] == COLON);
    lemma_skip_head(s, k, seq![COLON], nq + seq![RBRACE, RBRACE]);
    lemma_parse_quoted(s, k + 1, name, seq![RBRACE, RBRACE]);
    lemma_skip_head(s, k + 1, nq, seq![RBRACE, RBRACE]);
    let m: int = k + 1 + nq.len() as int;
    assert(s[m] == s.skip(m)[0] && s.skip(m)[0] == RBRACE);
    assert(s[m + 1] == s.skip(m)[1] && s.skip(m)[1] == RBRACE);
    assert(s.skip(m).len() == 2);
    assert(m + 2 == s.len());
}

/// The encoded configuration object decodes as the `Config` payload.
proof fn lemma_config_payload(s: Seq<u8>, p: int, c: ConfigModel)
    requires
        0 <= p <= s.len(),
        s.skip(p) == seq![LBRACE] + (spec_quoted(field_stun_servers()) + (seq![COLON] + (
        spec_encode_strings(c.stun_servers) + (seq![COMMA] + (spec_quoted(field_http_routes()) + (
        seq![COLON] + (spec_encode_routes(c.http_routes) + seq![RBRACE, RBRACE]))))))),
    ensures
        spec_decode_config_payload(s, p) == Some(c),
{
    let f1q = spec_quoted(field_stun_servers());
    let f2q = spec_quoted(field_http_routes());
    let stuns = spec_encode_strings(c.stun_servers);
    let routes = spec_encode_routes(c.http_routes);
    let r8 = routes + seq![RBRACE, RBRACE];
    let r7 = seq![COLON] + r8;
    let r6 = f2q + r7;
    let r5 = seq![COMMA] + r6;
    let r4 = stuns + r5;
    let r3 = seq![COLON] + r4;
    let r2 = f1q + r3;
    assert(s.skip(p).len() == s.len() - p);
    assert(s[p] == s.skip(p)[0] && s.skip(p)[0] == LBRACE);
    lemma_skip_head(s, p, seq![LBRACE], r2);
    lemma_parse_quoted(s, p + 1, field_stun_servers(), r3);
    lemma_skip_head(s, p + 1, f1q, r3);
    let k: int = p + 1 + f1q.len() as int;
    assert(s[k] == s.skip(k)[0] && s.skip(k)[0] == COLON);
    lemma_skip_head(s, k, seq![COLON], r4);
    lemma_parse_encoded_array(s, k + 1, c.stun_servers, r5);
    lemma_skip_head(s, k + 1, stuns, r5);
    let a: int = k + 1 + stuns.len() as int;
    assert(s[a] == s.skip(a)[0] && s.skip(a)[0] == COMMA);
    lemma_skip_head(s, a, seq![COMMA], r6);
    lemma_parse_quoted(s, a + 1, field_http_routes(), r7);
    lemma_skip_head(s, a + 1, f2q, r7);
    let b: int = a + 1 + f2q.len() as int;
    assert(s[b] == s.skip(b)[0] && s.skip(b)[0] == COLON);
    lemma_skip_head(s, b, seq![COLON], r8);
    lemma_parse_encoded_routes(s, b + 1, c.http_routes, seq![RBRACE, RBRACE]);
    lemma_skip_head(s, b + 1, routes, seq![RBRACE, RBRACE]);
    let w: int = b + 1 + routes.len() as int;
    assert(s[w] == s.skip(w)[0] && s.skip(w)[0] == RBRACE);
    assert(s[w + 1] == s.skip(w)[1] && s.skip(w)[1] == RBRACE);
    assert(s.skip(w).len() == 2);
    assert(w + 2 == s.len());
    assert(ConfigModel { stun_servers: c.stun_servers, http_routes: c.http_routes } == c);
}

/// No two operation tags are the same byte string.
proof fn lemma_tags_distinct()
    ensures
        tag_offer() != tag_answer(),
        tag_offer() != tag_candidate(),
        tag_offer() != tag_get_offer(),
        tag_offer() != tag_config(),
        tag_answer() != tag_candidate(),
        tag_answer() != tag_get_offer(),
        tag_answer() != tag_config(),
        tag_candidate() != tag_get_offer(),
        tag_candidate() != tag_config(),
        tag_get_offer() != tag_config(),
{
    assert(tag_offer().len() == 8);
    assert(tag_answer().len() == 9);
    assert(tag_candidate().len() == 9);
    assert(tag_get_offer().len() == 11);
    assert(tag_config().len() == 6);
    assert(tag_answer()[0] == 65u8 && tag_candidate()[0] == 67u8);
}

/// The codec round trip: every control operation decodes back from its
/// canonical wire form to exactly itself.
#[verifier::rlimit(100)]
pub proof fn lemma_codec_round_trip(m: OpModel)
    ensures
        spec_decode_op(spec_encode_op(m)) == Some(m),
{
    lemma_tags_distinct();
    let s = spec_encode_op(m);
    match m {
        OpModel::Offer(sdp) => {
            let payload = spec_quoted(sdp) + seq![RBRACE];
            assert(s =~= seq![LBRACE] + (spec_quoted(tag_offer()) + (seq![COLON] + payload)));
            lemma_decode_tagged(s, tag_offer(), payload);
            lemma_simple_payload(s, 2 + spec_quoted(tag_offer()).len() as int, sdp);
        },
        OpModel::Answer(sdp) => {
            let payload = spec_quoted(sdp) + seq![RBRACE];
            assert(s =~= seq![LBRACE] + (spec_quoted(tag_answer()) + (seq![COLON] + payload)));
            lemma_decode_tagged(s, tag_answer(), payload);
            lemma_simple_payload(s, 2 + spec_quoted(tag_answer()).len() as int, sdp);
        },
        OpModel::Candidate(cand) => {
            let payload = spec_quoted(cand) + seq![RBRACE];
            assert(s =~= seq![LBRACE] + (spec_quoted(tag_candidate()) + (seq![COLON] + payload)));
            lemma_decode_tagged(s, tag_candidate(), payload);
            lemma_simple_payload(s, 2 + spec_quoted(tag_candidate()).len() as int, cand);
        },
        OpModel::RequestOffer(name) => {
            let payload = seq![LBRACE] + (spec_quoted(field_channel_name()) + (seq![COLON] + (
            spec_quoted(name) + seq![RBRACE, RBRACE])));
            assert(s =~= seq![LBRACE] + (spec_quoted(tag_get_offer()) + (seq![COLON] + payload)));
            lemma_decode_tagged(s, tag_get_offer(), payload);
            lemma_get_offer_payload(s, 2 + spec_quoted(tag_get_offer()).len() as int, name);
        },
        OpModel::Config(c) => {
            let payload = seq![LBRACE] + (spec_quoted(field_stun_servers()) + (seq![COLON] + (
            spec_encode_strings(c.stun_servers) + (seq![COMMA] + (spec_quoted(
                field_http_routes(),
            ) + (seq![COLON] + (spec_encode_routes(c.http_routes) + seq![RBRACE, RBRACE])))))));
            assert(s =~= seq![LBRACE] + (spec_quoted(tag_config()) + (seq![COLON] + payload)));
            lemma_decode_tagged(s, tag_config(), payload);
            lemma_config_payload(s, 2 + spec_quoted(tag_config()).len() as int, c);
        },
    }
}

/// After a known head, the remainder of the sequence starts that much
/// later.
proof fn lemma_skip_head(s: Seq<u8>, i: int, x: Seq<u8>, y: Seq<u8>)
    requires
        0 <= i <= s.len(),
        s.skip(i) == x + y,
    ensures
        i + x.len() <= s.len(),
        s.skip(i + x.len()) == y,
{
    assert(s.skip(i).len() == s.len() - i);
    lemma_skip_skip(s, i, x.len() as int);
    assert((x + y).skip(x.len() as int) =~= y);
}


/// True when no byte of `s` is the line terminator.
pub open spec fn spec_line_safe(s: Seq<u8>) -> bool {
    forall|i: int| 0 <= i < s.len() ==> s[i] != NEWLINE
}

/// Escaping yields no line terminator: the newline byte itself is written
/// as its two-byte escape.
proof fn lemma_escape_line_safe(t: Seq<u8>)
    ensures
        spec_line_safe(spec_escape(t)),
    decreases t.len(),
{
    if t.len() > 0 {
        lemma_escape_line_safe(t.drop_first());
        let eb = spec_escape_byte(t[0]);
        assert(spec_line_safe(eb)) by {
            let b = t[0];
            if !(b == QUOTE || b == BACKSLASH || b == NEWLINE || b == CARRIAGE_RETURN || b == TAB)
                && b < 32 {
                assert(eb[4] == spec_hex_digit(b / 16) && eb[5] == spec_hex_digit(b % 16));
                assert(spec_hex_digit(b / 16) != NEWLINE);
                assert(spec_hex_digit(b % 16) != NEWLINE);
            }
        }
        assert forall|i: int| 0 <= i < spec_escape(t).len() implies spec_escape(t)[i]
            != NEWLINE by {
            if i < eb.len() {
                assert(spec_escape(t)[i] == eb[i]);
            } else {
                assert(spec_escape(t)[i] == spec_escape(t.drop_first())[i - eb.len()]);
            }
        }
    }
}

/// A quoted string holds no line terminator.
proof fn lemma_quoted_line_safe(t: Seq<u8>)
    ensures
        spec_line_safe(spec_quoted(t)),
{
    lemma_escape_line_safe(t);
}

/// Two line-safe pieces concatenate to a line-safe piece.
proof fn lemma_concat_line_safe(x: Seq<u8>, y: Seq<u8>)
    requires
        spec_line_safe(x),
        spec_line_safe(y),
    ensures
        spec_line_safe(x + y),
{
    assert forall|i: int| 0 <= i < (x + y).len() implies (x + y)[i] != NEWLINE by {
        if i < x.len() {
            assert((x + y)[i] == x[i]);
        } else {
            assert((x + y)[i] == y[i - x.len()]);
        }
    }
}

/// The items of a string array hold no line terminator.
proof fn lemma_strings_items_line_safe(v: Seq<Seq<u8>>)
    ensures
        spec_line_safe(spec_strings_items(v)),
    decreases v.len(),
{
    if v.len() > 0 {
        lemma_quoted_line_safe(v[0]);
        if v.len() > 1 {
            lemma_strings_items_line_safe(v.drop_first());
            lemma_concat_line_safe(spec_quoted(v[0]), seq![COMMA]);
            lemma_concat_line_safe(
                spec_quoted(v[0]) + seq![COMMA],
                spec_strings_items(v.drop_first()),
            );
        }
    }
}

/// The members of the route object hold no line terminator.
proof fn lemma_routes_items_line_safe(v: Seq<RouteEntryModel>)
    ensures
        spec_line_safe(spec_routes_items(v)),
    decreases v.len(),
{
    if v.len() > 0 {
        lemma_quoted_line_safe(v[0].key);
        lemma_quoted_line_safe(v[0].origin);
        let head = spec_quoted(v[0].key) + seq![COLON] + spec_quoted(v[0].origin);
        lemma_concat_line_safe(spec_quoted(v[0].key), seq![COLON]);
        lemma_concat_line_safe(spec_quoted(v[0].key) + seq![COLON], spec_quoted(v[0].origin));
        if v.len() > 1 {
            lemma_routes_items_line_safe(v.drop_first());
            lemma_concat_line_safe(head, seq![COMMA]);
            lemma_concat_line_safe(head + seq![COMMA], spec_routes_items(v.drop_first()));
        }
    }
}

/// The canonical wire form of an operation holds no line terminator: one
/// operation occupies exactly one line, whatever its payload holds.
pub proof fn lemma_encode_op_line_safe(m: OpModel)
    ensures
        spec_line_safe(spec_encode_op(m)),
{
    match m {
        OpModel::Offer(p) => {
            lemma_wrap_simple_line_safe(tag_offer(), p);
        },
        OpModel::Answer(p) => {
            lemma_wrap_simple_line_safe(tag_answer(), p);
        },
        OpModel::Candidate(p) => {
            lemma_wrap_simple_line_safe(tag_candidate(), p);
        },
        OpModel::RequestOffer(name) => {
            lemma_quoted_line_safe(tag_get_offer());
            lemma_quoted_line_safe(field_channel_name());
            lemma_quoted_line_safe(name);
            let s = spec_encode_op(m);
            assert forall|i: int| 0 <= i < s.len() implies s[i] != NEWLINE by {
                lemma_concat_pieces_request_offer(name, i);
            }
        },
        OpModel::Config(c) => {
            lemma_quoted_line_safe(tag_config());
            lemma_quoted_line_safe(field_stun_servers());
            lemma_quoted_line_safe(field_http_routes());
            lemma_strings_items_line_safe(c.stun_servers);
            lemma_routes_items_line_safe(c.http_routes);
            let s = spec_encode_op(m);
            assert forall|i: int| 0 <= i < s.len() implies s[i] != NEWLINE by {
                lemma_concat_pieces_config(c, i);
            }
        },
    }
}

/// The wire form of a single-string operation holds no line terminator.
proof fn lemma_wrap_simple_line_safe(tag: Seq<u8>, p: Seq<u8>)
    requires
        spec_line_safe(tag),
    ensures
        spec_line_safe(spec_wrap_simple(tag, p)),
{
    lemma_quoted_line_safe(tag);
    lemma_quoted_line_safe(p);
    lemma_concat_line_safe(seq![LBRACE], spec_quoted(tag));
    lemma_concat_line_safe(seq![LBRACE] + spec_quoted(tag), seq![COLON]);
    lemma_concat_line_safe(seq![LBRACE] + spec_quoted(tag) + seq![COLON], spec_quoted(p));
    lemma_concat_line_safe(
        seq![LBRACE] + spec_quoted(tag) + seq![COLON] + spec_quoted(p),
        seq![RBRACE],
    );
}

/// One position of an encoded `GetOfferSDP` line is no line terminator.
proof fn lemma_concat_pieces_request_offer(name: Seq<u8>, i: int)
    requires
        0 <= i < spec_encode_op(OpModel::RequestOffer(name)).len(),
    ensures
        spec_encode_op(OpModel::RequestOffer(name))[i] != NEWLINE,
{
    lemma_quoted_line_safe(tag_get_offer());
    lemma_quoted_line_safe(field_channel_name());
    lemma_quoted_line_safe(name);
    let a = seq![LBRACE];
    let b = spec_quoted(tag_get_offer());
    let cc = seq![COLON];
    let d = seq![LBRACE];
    let e = spec_quoted(field_channel_name());
    let f = seq![COLON];
    let g = spec_quoted(name);
    let h = seq![RBRACE];
    lemma_concat_line_safe(a, b);
    lemma_concat_line_safe(a + b, cc);
    lemma_concat_line_safe(a + b + cc, d);
    lemma_concat_line_safe(a + b + cc + d, e);
    lemma_concat_line_safe(a + b + cc + d + e, f);
    lemma_concat_line_safe(a + b + cc + d + e + f, g);
    lemma_concat_line_safe(a + b + cc + d + e + f + g, h);
    lemma_concat_line_safe(a + b + cc + d + e + f + g + h, h);
}

/// One position of an encoded `Config` line is no line terminator.
proof fn lemma_concat_pieces_config(c: ConfigModel, i: int)
    requires
        0 <= i < spec_encode_op(OpModel::Config(c)).len(),
    ensures
        spec_encode_op(OpModel::Config(c))[i] != NEWLINE,
{
    lemma_quoted_line_safe(tag_config());
    lemma_quoted_line_safe(field_stun_servers());
    lemma_quoted_line_safe(field_http_routes());
    lemma_strings_items_line_safe(c.stun_servers);
    lemma_routes_items_line_safe(c.http_routes);
    let a = seq![LBRACE];
    let b = spec_quoted(tag_config());
    let cc = seq![COLON];
    let d = seq![LBRACE];
    let e = spec_quoted(field_stun_servers());
    let f = seq![COLON];
    let g = spec_encode_strings(c.stun_servers);
    let h = seq![COMMA];
    let k = spec_quoted(field_http_routes());
    let l = seq![COLON];
    let m2 = spec_encode_routes(c.http_routes);
    let r = seq![RBRACE];
    lemma_concat_line_safe(seq![LBRACKET], spec_strings_items(c.stun_servers));
    lemma_concat_line_safe(
        seq![LBRACKET] + spec_strings_items(c.stun_servers),
        seq![RBRACKET],
    );
    lemma_concat_line_safe(seq![LBRACE], spec_routes_items(c.http_routes));
    lemma_concat_line_safe(seq![LBRACE] + spec_routes_items(c.http_routes), seq![RBRACE]);
    lemma_concat_line_safe(a, b);
    lemma_concat_line_safe(a + b, cc);
    lemma_concat_line_safe(a + b + cc, d);
    lemma_concat_line_safe(a + b + cc + d, e);
    lemma_concat_line_safe(a + b + cc + d + e, f);
    lemma_concat_line_safe(a + b + cc + d + e + f, g);
    lemma_concat_line_safe(a + b + cc + d + e + f + g, h);
    lemma_concat_line_safe(a + b + cc + d + e + f + g + h, k);
    lemma_concat_line_safe(a + b + cc + d + e + f + g + h + k, l);
    lemma_concat_line_safe(a + b + cc + d + e + f + g + h + k + l, m2);
    lemma_concat_line_safe(a + b + cc + d + e + f + g + h + k + l + m2, r);
    lemma_concat_line_safe(a + b + cc + d + e + f + g + h + k + l + m2 + r, r);
}

/// The framing round trip: a framed operation followed by any remaining
/// bytes reads back as exactly that operation's line, and the remainder is
/// untouched.
pub proof fn lemma_frame_round_trip(m: OpModel, rest: Seq<u8>)
    ensures
        spec_take_line(spec_frame_op(m) + rest) == Some((spec_encode_op(m), rest)),
{
    let line = spec_encode_op(m);
    let s = spec_frame_op(m) + rest;
    lemma_encode_op_line_safe(m);
    assert(forall|j: int| 0 <= j < line.len() ==> s[j] == line[j]);
    assert(s[line.len() as int] == NEWLINE);
    lemma_find_newline_exists(s, line.len() as int);
    assert(s.take(line.len() as int) =~= line);
    assert(s.skip(line.len() + 1 as int) =~= rest);
}

} // verus!
