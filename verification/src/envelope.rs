//! JSON-RPC envelopes.
//!
//! The incoming `jsonrpc`, `id` and `params` fields are carried as raw JSON
//! text and never re-parsed; responses are assembled so that the `jsonrpc`
//! and `id` bytes of the request reappear in the response unchanged. Error
//! text is JSON-escaped character by character before it is framed.

use vstd::prelude::*;

verus! {

/// A parsed JSON-RPC request. Every field but `method` is raw JSON text,
/// kept verbatim; `method` is the decoded method name.
#[derive(Clone)]
pub struct JsonRpcRequest {
    /// Raw text of the `jsonrpc` field, e.g. `"2.0"` with its quotes.
    pub jsonrpc: String,
    /// Raw text of the `id` field, e.g. `7` or `"abc"`.
    pub id: String,
    /// The method name, decoded.
    pub method: String,
    /// Raw text of the `params` field, forwarded untouched.
    pub params: String,
}

/// The body of a success response: the request's `jsonrpc` and `id` raw text,
/// and the upstream's raw `result`, framed as a JSON object.
pub open spec fn response_ok_view(jsonrpc: Seq<char>, id: Seq<char>, result: Seq<char>) -> Seq<
    char,
> {
    "{\"jsonrpc\":"@ + jsonrpc + ",\"id\":"@ + id + ",\"result\":"@ + result + "}"@
}

/// The body of an error response; `reason` is the already escaped text
/// inside the quoted `error` string.
pub open spec fn response_err_view(jsonrpc: Seq<char>, id: Seq<char>, reason: Seq<char>) -> Seq<
    char,
> {
    "{\"jsonrpc\":"@ + jsonrpc + ",\"id\":"@ + id + ",\"error\":\""@ + reason + "\"}"@
}

/// Text that may stand inside a JSON string as it is: no quote, no
/// backslash, no control character.
pub open spec fn json_safe(s: Seq<char>) -> bool {
    forall|i: int|
        0 <= i < s.len() ==> s[i] != '"' && s[i] != '\\' && (#[trigger] s[i]) as u32 >= 0x20
}

/// The lower-case hexadecimal digit for a value below sixteen.
pub open spec fn hex_digit_char(d: int) -> char {
    if d == 0 {
        '0'
    } else if d == 1 {
        '1'
    } else if d == 2 {
        '2'
    } else if d == 3 {
        '3'
    } else if d == 4 {
        '4'
    } else if d == 5 {
        '5'
    } else if d == 6 {
        '6'
    } else if d == 7 {
        '7'
    } else if d == 8 {
        '8'
    } else if d == 9 {
        '9'
    } else if d == 10 {
        'a'
    } else if d == 11 {
        'b'
    } else if d == 12 {
        'c'
    } else if d == 13 {
        'd'
    } else if d == 14 {
        'e'
    } else {
        'f'
    }
}

/// How one character stands inside a JSON string: quotes and backslashes
/// get a backslash, control characters become a `\u00XX` sequence, and
/// everything else stands as it is.
pub open spec fn escaped_char(c: char) -> Seq<char> {
    if c == '"' {
        seq!['\\', '"']
    } else if c == '\\' {
        seq!['\\', '\\']
    } else if (c as u32) < 0x20 {
        seq![
            '\\',
            'u',
            '0',
            '0',
            hex_digit_char((c as u32) as int / 16),
            hex_digit_char((c as u32) as int % 16),
        ]
    } else {
        seq![c]
    }
}

/// A whole text, escaped character by character.
pub open spec fn escaped(s: Seq<char>) -> Seq<char>
    decreases s.len(),
{
    if s.len() == 0 {
        Seq::empty()
    } else {
        escaped(s.drop_last()) + escaped_char(s.last())
    }
}

/// Text that needs no escaping is embedded verbatim: on it, escaping is the
/// identity.
pub proof fn lemma_escaped_safe_identity(s: Seq<char>)
    requires
        json_safe(s),
    ensures
        escaped(s) == s,
    decreases s.len(),
{
    if s.len() > 0 {
        assert(json_safe(s.drop_last()));
        lemma_escaped_safe_identity(s.drop_last());
        assert(escaped_char(s.last()) =~= seq![s.last()]);
        assert(escaped(s) =~= s);
    } else {
        assert(escaped(s) =~= s);
    }
}

/// Append the lower-case hexadecimal digit for `d`.
fn append_hex_digit(out: &mut String, d: u32)
    requires
        d < 16,
    ensures
        final (out)@ == old(out)@ + seq![hex_digit_char(d as int)],
{
    let digit = if d == 0 {
        "0"
    } else if d == 1 {
        "1"
    } else if d == 2 {
        "2"
    } else if d == 3 {
        "3"
    } else if d == 4 {
        "4"
    } else if d == 5 {
        "5"
    } else if d == 6 {
        "6"
    } else if d == 7 {
        "7"
    } else if d == 8 {
        "8"
    } else if d == 9 {
        "9"
    } else if d == 10 {
        "a"
    } else if d == 11 {
        "b"
    } else if d == 12 {
        "c"
    } else if d == 13 {
        "d"
    } else if d == 14 {
        "e"
    } else {
        "f"
    };
    proof {
        reveal_strlit("0");
        reveal_strlit("1");
        reveal_strlit("2");
        reveal_strlit("3");
        reveal_strlit("4");
        reveal_strlit("5");
        reveal_strlit("6");
        reveal_strlit("7");
        reveal_strlit("8");
        reveal_strlit("9");
        reveal_strlit("a");
        reveal_strlit("b");
        reveal_strlit("c");
        reveal_strlit("d");
        reveal_strlit("e");
        reveal_strlit("f");
        assert(digit@ =~= seq![hex_digit_char(d as int)]);
    }
    out.append(digit);
}

/// Escape a text so that it can stand inside a JSON string.
pub fn escape_reason(reason: &str) -> (r: String)
    ensures
        r@ == escaped(reason@),
{
    let n = reason.unicode_len();
    let mut out = String::new();
    let mut k: usize = 0;
    while k < n
        invariant
            k <= n,
            n == reason@.len(),
            out@ == escaped(reason@.take(k as int)),
        decreases n - k,
    {
        let c = reason.get_char(k);
        if c == '"' {
            proof {
                reveal_strlit("\\\"");
                assert("\\\""@ =~= escaped_char(c));
            }
            out.append("\\\"");
        } else if c == '\\' {
            proof {
                reveal_strlit("\\\\");
                assert("\\\\"@ =~= escaped_char(c));
            }
            out.append("\\\\");
        } else if (c as u32) < 0x20 {
            proof {
                reveal_strlit("\\u00");
                assert("\\u00"@ =~= seq!['\\', 'u', '0', '0']);
            }
            out.append("\\u00");
            append_hex_digit(&mut out, (c as u32) / 16);
            append_hex_digit(&mut out, (c as u32) % 16);
            proof {
                assert(out@ =~= escaped(reason@.take(k as int)) + escaped_char(c));
            }
        } else {
            let piece = reason.substring_char(k, k + 1);
            proof {
                assert(piece@ =~= escaped_char(c));
            }
            out.append(piece);
        }
        proof {
            assert(reason@.take(k + 1).drop_last() =~= reason@.take(k as int));
            assert(reason@.take(k + 1).last() == c);
            assert(out@ =~= escaped(reason@.take(k + 1)));
        }
        k = k + 1;
    }
    proof {
        assert(reason@.take(n as int) =~= reason@);
    }
    out
}

/// Wrap an upstream `result` in a response envelope. The request's `jsonrpc`
/// and `id` bytes are copied into the response verbatim.
pub fn build_success_response(jsonrpc: &str, id: &str, result: &str) -> (r: String)
    ensures
        r@ == response_ok_view(jsonrpc@, id@, result@),
{
    let mut out = String::from_str("{\"jsonrpc\":");
    out.append(jsonrpc);
    out.append(",\"id\":");
    out.append(id);
    out.append(",\"result\":");
    out.append(result);
    out.append("}");
    proof {
        assert(out@ =~= response_ok_view(jsonrpc@, id@, result@));
    }
    out
}

/// Wrap a locally produced error in a response envelope: the request's
/// `jsonrpc` and `id` bytes verbatim, and the reason JSON-escaped inside
/// the `error` string.
pub fn build_error_response(jsonrpc: &str, id: &str, reason: &str) -> (r: String)
    ensures
        r@ == response_err_view(jsonrpc@, id@, escaped(reason@)),
{
    let escaped_reason = escape_reason(reason);
    let mut out = String::from_str("{\"jsonrpc\":");
    out.append(jsonrpc);
    out.append(",\"id\":");
    out.append(id);
    out.append(",\"error\":\"");
    out.append(escaped_reason.as_str());
    out.append("\"}");
    proof {
        assert(out@ =~= response_err_view(jsonrpc@, id@, escaped(reason@)));
    }
    out
}

/// Whether this request must take the broadcast path: a raw-transaction
/// submission while a private tier is configured.
pub fn should_broadcast(method: &String, has_private_tier: bool) -> (b: bool)
    ensures
        b == (has_private_tier && method@ == "eth_sendRawTransaction"@),
{
    let target = String::from_str("eth_sendRawTransaction");
    has_private_tier && *method == target
}

} // verus!
