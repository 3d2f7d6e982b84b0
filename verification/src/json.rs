//! JSON rendering of the data model: escaped strings, numbers, captured
//! requests, bins and summaries, each proved equal to its specification.
//!
//! The shapes are fixed by the wire contract; whitespace is not contractual,
//! so the renderings are compact.

use vstd::prelude::*;
use vstd::string::StrSliceExecFns;
use vstd::string::StringExecFns;

use crate::models::BinSummary;
use crate::models::MultiMap;
use crate::models::MultiMapView;
use crate::models::Request;
use crate::text::dec_int;
use crate::text::dec_nat;
use crate::text::hex_digit;
use crate::text::hex_digit_exec;
use crate::text::i64_dec;
use crate::text::push_char;
use crate::text::u64_dec;

verus! {

/// JSON escape of one character: quote and backslash get a leading
/// backslash, other control characters become a four-digit escape, anything
/// else stands as itself.
pub open spec fn json_escaped_char(c: char) -> Seq<char> {
    if c == '"' {
        seq!['\\', '"']
    } else if c == '\\' {
        seq!['\\', '\\']
    } else if (c as u32) < 32 {
        seq![
            '\\',
            'u',
            '0',
            '0',
            hex_digit((c as u32 / 16) as nat),
            hex_digit((c as u32 % 16) as nat),
        ]
    } else {
        seq![c]
    }
}

/// JSON escape of a text: each character escaped, in order.
pub open spec fn json_escaped(s: Seq<char>) -> Seq<char>
    decreases s.len(),
{
    if s.len() == 0 {
        Seq::empty()
    } else {
        json_escaped(s.drop_last()) + json_escaped_char(s.last())
    }
}

/// A JSON string literal: the escaped text between double quotes.
pub open spec fn json_string(s: Seq<char>) -> Seq<char> {
    seq!['"'] + json_escaped(s) + seq!['"']
}

/// Pieces joined by commas, in order.
pub open spec fn comma_join(pieces: Seq<Seq<char>>) -> Seq<char>
    decreases pieces.len(),
{
    if pieces.len() == 0 {
        Seq::empty()
    } else if pieces.len() == 1 {
        pieces[0]
    } else {
        comma_join(pieces.drop_last()) + seq![','] + pieces.last()
    }
}

/// A JSON array of string literals.
pub open spec fn json_string_array(vs: Seq<Seq<char>>) -> Seq<char> {
    seq!['['] + comma_join(vs.map_values(|v: Seq<char>| json_string(v))) + seq![']']
}

/// A JSON object over a multi-valued mapping: each name bound to the array
/// of its values, in first-arrival order of the names.
pub open spec fn json_of_multimap(m: MultiMapView) -> Seq<char> {
    seq!['{'] + comma_join(
        m.map_values(
            |e: (Seq<char>, Seq<Seq<char>>)| json_string(e.0) + seq![':'] + json_string_array(e.1),
        ),
    ) + seq!['}']
}

/// An optional string: `null` when absent.
pub open spec fn json_opt_string(o: Option<String>) -> Seq<char> {
    match o {
        Option::None => "null"@,
        Option::Some(s) => json_string(s@),
    }
}

/// An optional number: `null` when absent.
pub open spec fn json_opt_u64(o: Option<u64>) -> Seq<char> {
    match o {
        Option::None => "null"@,
        Option::Some(v) => dec_nat(v as nat),
    }
}

/// The JSON shape of a captured request.
pub open spec fn json_of_request(r: Request) -> Seq<char> {
    "{\"content_length\":"@ + json_opt_u64(r.content_length) + ",\"content_type\":"@
        + json_opt_string(r.content_type) + ",\"time\":"@ + dec_int(r.time as int) + ",\"method\":"@
        + json_string(r.method@) + ",\"path\":"@ + json_string(r.path@) + ",\"body\":"@
        + json_opt_string(r.body) + ",\"headers\":"@ + json_of_multimap(r.headers@)
        + ",\"query_string\":"@ + json_of_multimap(r.query_string@) + "}"@
}

/// The JSON shape of a bin: the ordered array of its captured requests.
pub open spec fn json_of_bin(rs: Seq<Request>) -> Seq<char> {
    seq!['['] + comma_join(rs.map_values(|r: Request| json_of_request(r))) + seq![']']
}

/// The JSON shape of a bin summary, from its parts.
pub open spec fn json_summary_parts(id: Seq<char>, count: nat) -> Seq<char> {
    "{\"id\":"@ + json_string(id) + ",\"request_count\":"@ + dec_nat(count) + "}"@
}

/// The JSON shape of a bin summary.
pub open spec fn json_of_summary(b: BinSummary) -> Seq<char> {
    json_summary_parts(b.id@, b.request_count as nat)
}

/// The JSON shape of the summary listing: an object keyed by identifier.
pub open spec fn json_of_summaries(bs: Seq<BinSummary>) -> Seq<char> {
    seq!['{'] + comma_join(
        bs.map_values(|b: BinSummary| json_string(b.id@) + seq![':'] + json_of_summary(b)),
    ) + seq!['}']
}

/// Escapes a text for use inside a JSON string literal.
pub fn escape_json(s: &str) -> (r: String)
    ensures
        r@ == json_escaped(s@),
{
    let n = s.unicode_len();
    let mut out = String::new();
    let mut i: usize = 0;
    while i < n
        invariant
            i <= n == s@.len(),
            out@ == json_escaped(s@.take(i as int)),
        decreases n - i,
    {
        let ghost out0 = out@;
        let c = s.get_char(i);
        let cv = c as u32;
        if c == '"' {
            push_char(&mut out, '\\');
            push_char(&mut out, '"');
        } else if c == '\\' {
            push_char(&mut out, '\\');
            push_char(&mut out, '\\');
        } else if cv < 32 {
            push_char(&mut out, '\\');
            push_char(&mut out, 'u');
            push_char(&mut out, '0');
            push_char(&mut out, '0');
            push_char(&mut out, hex_digit_exec((cv / 16) as u8));
            push_char(&mut out, hex_digit_exec((cv % 16) as u8));
        } else {
            push_char(&mut out, c);
        }
        proof {
            assert(out@ =~= out0 + json_escaped_char(c));
            assert(s@.take(i + 1).drop_last() =~= s@.take(i as int));
            assert(s@.take(i + 1).last() == c);
        }
        i += 1;
    }
    proof {
        assert(s@.take(n as int) =~= s@);
    }
    out
}

/// Renders a JSON string literal.
pub fn json_string_exec(s: &str) -> (r: String)
    ensures
        r@ == json_string(s@),
{
    let mut out = String::new();
    push_char(&mut out, '"');
    let escaped = escape_json(s);
    out.append(escaped.as_str());
    push_char(&mut out, '"');
    proof {
        assert(out@ =~= json_string(s@));
    }
    out
}

/// Renders an optional string, `null` when absent.
pub fn json_opt_string_exec(o: &Option<String>) -> (r: String)
    ensures
        r@ == json_opt_string(*o),
{
    match o {
        Option::None => String::from_str("null"),
        Option::Some(s) => json_string_exec(s.as_str()),
    }
}

/// Renders an optional number, `null` when absent.
pub fn json_opt_u64_exec(o: &Option<u64>) -> (r: String)
    ensures
        r@ == json_opt_u64(*o),
{
    match o {
        Option::None => String::from_str("null"),
        Option::Some(v) => u64_dec(*v),
    }
}

/// Renders a JSON array of string literals.
pub fn string_array_json(vs: &Vec<String>) -> (r: String)
    ensures
        r@ == json_string_array(vs.deep_view()),
{
    let ghost pieces = vs.deep_view().map_values(|v: Seq<char>| json_string(v));
    let mut out = String::new();
    push_char(&mut out, '[');
    let n = vs.len();
    let mut i: usize = 0;
    while i < n
        invariant
            i <= n == vs@.len(),
            vs.deep_view().len() == n,
            pieces == vs.deep_view().map_values(|v: Seq<char>| json_string(v)),
            out@ == seq!['['] + comma_join(pieces.take(i as int)),
        decreases n - i,
    {
        if i > 0 {
            push_char(&mut out, ',');
        }
        let piece = json_string_exec(vs[i].as_str());
        out.append(piece.as_str());
        proof {
            assert(vs.deep_view()[i as int] == vs@[i as int]@);
            assert(pieces.take(i + 1).drop_last() =~= pieces.take(i as int));
            if i == 0 {
                assert(out@ =~= seq!['['] + comma_join(pieces.take(1)));
            } else {
                assert(out@ =~= seq!['['] + comma_join(pieces.take(i + 1)));
            }
        }
        i += 1;
    }
    push_char(&mut out, ']');
    proof {
        assert(pieces.take(n as int) =~= pieces);
        assert(out@ =~= json_string_array(vs.deep_view()));
    }
    out
}

/// Renders a multi-valued mapping as a JSON object.
pub fn multimap_json(m: &MultiMap) -> (r: String)
    ensures
        r@ == json_of_multimap(m@),
{
    let ghost pieces = m@.map_values(
        |e: (Seq<char>, Seq<Seq<char>>)| json_string(e.0) + seq![':'] + json_string_array(e.1),
    );
    let mut out = String::new();
    push_char(&mut out, '{');
    let n = m.len();
    let mut i: usize = 0;
    while i < n
        invariant
            i <= n == m@.len(),
            pieces == m@.map_values(
                |e: (Seq<char>, Seq<Seq<char>>)| json_string(e.0) + seq![':'] + json_string_array(
                    e.1,
                ),
            ),
            out@ == seq!['{'] + comma_join(pieces.take(i as int)),
        decreases n - i,
    {
        if i > 0 {
            push_char(&mut out, ',');
        }
        let entry = m.entry_at(i);
        let name_json = json_string_exec(entry.0.as_str());
        out.append(name_json.as_str());
        push_char(&mut out, ':');
        let values_json = string_array_json(&entry.1);
        out.append(values_json.as_str());
        proof {
            assert(pieces.take(i + 1).drop_last() =~= pieces.take(i as int));
            if i == 0 {
                assert(out@ =~= seq!['{'] + comma_join(pieces.take(1)));
            } else {
                assert(out@ =~= seq!['{'] + comma_join(pieces.take(i + 1)));
            }
        }
        i += 1;
    }
    push_char(&mut out, '}');
    proof {
        assert(pieces.take(n as int) =~= pieces);
        assert(out@ =~= json_of_multimap(m@));
    }
    out
}

/// Renders a captured request.
pub fn request_json(r: &Request) -> (res: String)
    ensures
        res@ == json_of_request(*r),
{
    let mut out = String::from_str("{\"content_length\":");
    let piece = json_opt_u64_exec(&r.content_length);
    out.append(piece.as_str());
    out.append(",\"content_type\":");
    let piece = json_opt_string_exec(&r.content_type);
    out.append(piece.as_str());
    out.append(",\"time\":");
    let piece = i64_dec(r.time);
    out.append(piece.as_str());
    out.append(",\"method\":");
    let piece = json_string_exec(r.method.as_str());
    out.append(piece.as_str());
    out.append(",\"path\":");
    let piece = json_string_exec(r.path.as_str());
    out.append(piece.as_str());
    out.append(",\"body\":");
    let piece = json_opt_string_exec(&r.body);
    out.append(piece.as_str());
    out.append(",\"headers\":");
    let piece = multimap_json(&r.headers);
    out.append(piece.as_str());
    out.append(",\"query_string\":");
    let piece = multimap_json(&r.query_string);
    out.append(piece.as_str());
    out.append("}");
    proof {
        assert(out@ =~= json_of_request(*r));
    }
    out
}

/// Renders a bin: the ordered array of its captured requests.
pub fn bin_json(rs: &Vec<Request>) -> (r: String)
    ensures
        r@ == json_of_bin(rs@),
{
    let ghost pieces = rs@.map_values(|q: Request| json_of_request(q));
    let mut out = String::new();
    push_char(&mut out, '[');
    let n = rs.len();
    let mut i: usize = 0;
    while i < n
        invariant
            i <= n == rs@.len(),
            pieces == rs@.map_values(|q: Request| json_of_request(q)),
            out@ == seq!['['] + comma_join(pieces.take(i as int)),
        decreases n - i,
    {
        if i > 0 {
            push_char(&mut out, ',');
        }
        let piece = request_json(&rs[i]);
        out.append(piece.as_str());
        proof {
            assert(pieces.take(i + 1).drop_last() =~= pieces.take(i as int));
            if i == 0 {
                assert(out@ =~= seq!['['] + comma_join(pieces.take(1)));
            } else {
                assert(out@ =~= seq!['['] + comma_join(pieces.take(i + 1)));
            }
        }
        i += 1;
    }
    push_char(&mut out, ']');
    proof {
        assert(pieces.take(n as int) =~= pieces);
        assert(out@ =~= json_of_bin(rs@));
    }
    out
}

/// Renders a bin summary.
pub fn summary_json(b: &BinSummary) -> (r: String)
    ensures
        r@ == json_of_summary(*b),
{
    let mut out = String::from_str("{\"id\":");
    let piece = json_string_exec(b.id.value());
    out.append(piece.as_str());
    out.append(",\"request_count\":");
    let piece = u64_dec(b.request_count as u64);
    out.append(piece.as_str());
    out.append("}");
    proof {
        assert(out@ =~= json_of_summary(*b));
    }
    out
}

/// Renders the summary listing as a JSON object keyed by identifier.
pub fn summaries_json(bs: &Vec<BinSummary>) -> (r: String)
    ensures
        r@ == json_of_summaries(bs@),
{
    let ghost pieces = bs@.map_values(
        |b: BinSummary| json_string(b.id@) + seq![':'] + json_of_summary(b),
    );
    let mut out = String::new();
    push_char(&mut out, '{');
    let n = bs.len();
    let mut i: usize = 0;
    while i < n
        invariant
            i <= n == bs@.len(),
            pieces == bs@.map_values(
                |b: BinSummary| json_string(b.id@) + seq![':'] + json_of_summary(b),
            ),
            out@ == seq!['{'] + comma_join(pieces.take(i as int)),
        decreases n - i,
    {
        if i > 0 {
            push_char(&mut out, ',');
        }
        let name_json = json_string_exec(bs[i].id.value());
        out.append(name_json.as_str());
        push_char(&mut out, ':');
        let piece = summary_json(&bs[i]);
        out.append(piece.as_str());
        proof {
            assert(pieces.take(i + 1).drop_last() =~= pieces.take(i as int));
            if i == 0 {
                assert(out@ =~= seq!['{'] + comma_join(pieces.take(1)));
            } else {
                assert(out@ =~= seq!['{'] + comma_join(pieces.take(i + 1)));
            }
        }
        i += 1;
    }
    push_char(&mut out, '}');
    proof {
        assert(pieces.take(n as int) =~= pieces);
        assert(out@ =~= json_of_summaries(bs@));
    }
    out
}

} // verus!
