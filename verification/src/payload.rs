//! What the plugin writes: the text of a backup list, one `otpauth://totp/`
//! URI per account, and the JSON message that pushes accounts to the watch.
use vstd::prelude::*;
use vstd::utf8::*;
use crate::input::{nat_digits, nat_digits_exec};
use crate::percent::{pct_encode_bytes, percent_encode};
use crate::text::{chars_of, string_of, upper_chars, upper_text};
use crate::totp::{TOTPInfo, TotpModel};

verus! {

/// The texts of `ls` joined with `sep` between them.
pub open spec fn join_sep(ls: Seq<Seq<char>>, sep: char) -> Seq<char>
    decreases ls.len(),
{
    if ls.len() == 0 {
        Seq::<char>::empty()
    } else if ls.len() == 1 {
        ls[0]
    } else {
        join_sep(ls.drop_last(), sep) + seq![sep] + ls.last()
    }
}

/// The label of an account: `name:usr`, or the name alone when the
/// account name is empty.
pub open spec fn totp_label(t: TotpModel) -> Seq<char> {
    if t.usr.len() == 0 {
        t.name
    } else {
        t.name + ":"@ + t.usr
    }
}

/// The `otpauth://totp/` URI of an account: percent-encoded label, the key
/// upper-cased as the secret, the percent-encoded name as the issuer.
pub open spec fn totp_line(t: TotpModel) -> Seq<char> {
    "otpauth://totp/"@ + pct_encode_bytes(encode_utf8(totp_label(t))) + "?secret="@ + upper_text(
        t.key,
    ) + "&issuer="@ + pct_encode_bytes(encode_utf8(t.name))
}

/// The URIs of the accounts, one per line.
pub open spec fn totp_list_text(list: Seq<TotpModel>) -> Seq<char> {
    join_sep(list.map_values(|t: TotpModel| totp_line(t)), '\n')
}

/// The lower-case hexadecimal digit for a value below 16.
pub open spec fn json_hex_digit(n: u32) -> char {
    if n < 10 {
        (0x30 + n) as char
    } else {
        (0x61 + n - 10) as char
    }
}

/// How serde_json writes one character inside a JSON string: `"` and `\`
/// behind a backslash, backspace, tab, line feed, form feed and carriage
/// return as `\b`, `\t`, `\n`, `\f` and `\r`, every other character below
/// U+0020 as `\u00` and two lower-case hexadecimal digits, any other
/// character as itself.
pub open spec fn json_escape_char(c: char) -> Seq<char> {
    let u = c as u32;
    if c == '"' {
        seq!['\\', '"']
    } else if c == '\\' {
        seq!['\\', '\\']
    } else if u == 0x08 {
        seq!['\\', 'b']
    } else if u == 0x09 {
        seq!['\\', 't']
    } else if u == 0x0a {
        seq!['\\', 'n']
    } else if u == 0x0c {
        seq!['\\', 'f']
    } else if u == 0x0d {
        seq!['\\', 'r']
    } else if u < 0x20 {
        seq!['\\', 'u', '0', '0', json_hex_digit(u / 16), json_hex_digit(u % 16)]
    } else {
        seq![c]
    }
}

/// The characters of `s`, each as serde_json writes it inside a string.
pub open spec fn json_escaped(s: Seq<char>) -> Seq<char>
    decreases s.len(),
{
    if s.len() == 0 {
        Seq::<char>::empty()
    } else {
        json_escape_char(s[0]) + json_escaped(s.skip(1))
    }
}

/// What `serde_json::to_string` gives for a string: the JSON string
/// literal that spells it, between two quotes.
pub open spec fn json_string_literal(s: Seq<char>) -> Seq<char> {
    seq!['"'] + json_escaped(s) + seq!['"']
}

/// `serde_json::to_string` on a string: the JSON string literal that spells
/// `s`, with the escapes of that crate's `format_escaped_str` (its table
/// `ESCAPE` and `Formatter::write_char_escape`). Serializing a string into
/// memory cannot fail: its writer is a `Vec<u8>`.
#[verifier::external_body]
fn json_quote(s: &str) -> (r: String)
    ensures
        r@ == json_string_literal(s@),
{
    serde_json::to_string(s).unwrap_or_default()
}

/// The JSON object of one account, members in the order the watch reads.
pub open spec fn account_json(t: TotpModel) -> Seq<char> {
    "{\"name\":"@ + json_string_literal(t.name) + ",\"usr\":"@ + json_string_literal(t.usr)
        + ",\"key\":"@ + json_string_literal(t.key) + ",\"algorithm\":"@ + json_string_literal(
        t.algorithm,
    ) + ",\"digits\":"@ + nat_digits(t.digits as nat) + ",\"period\":"@ + nat_digits(
        t.period as nat,
    ) + "}"@
}

/// The message that pushes accounts to the watch: `{"list":[...]}`.
pub open spec fn push_payload(list: Seq<TotpModel>) -> Seq<char> {
    "{\"list\":["@ + join_sep(list.map_values(|t: TotpModel| account_json(t)), ',') + "]}"@
}

/// Appends the characters of `s`.
fn push_all(out: &mut Vec<char>, s: &Vec<char>)
    ensures
        final(out)@ == old(out)@ + s@,
{
    let mut i: usize = 0;
    while i < s.len()
        invariant
            i <= s.len(),
            out@ == old(out)@ + s@.take(i as int),
        decreases s.len() - i,
    {
        out.push(s[i]);
        i = i + 1;
        assert(out@ =~= old(out)@ + s@.take(i as int));
    }
    assert(s@.take(s.len() as int) =~= s@);
}

/// Appends the characters of `s`.
fn push_str(out: &mut Vec<char>, s: &str)
    ensures
        final(out)@ == old(out)@ + s@,
{
    let c = chars_of(s);
    push_all(out, &c);
}

/// The `otpauth://totp/` URI of an account.
fn totp_line_exec(item: &TOTPInfo) -> (r: Vec<char>)
    ensures
        r@ == totp_line(item@),
{
    let label = if item.usr.as_str().is_empty() {
        percent_encode(item.name.as_str())
    } else {
        let mut both = chars_of(item.name.as_str());
        push_str(&mut both, ":");
        push_str(&mut both, item.usr.as_str());
        let joined = string_of(&both);
        percent_encode(joined.as_str())
    };
    let key = chars_of(item.key.as_str());
    let secret = upper_chars(&key);
    let issuer = percent_encode(item.name.as_str());
    let mut line: Vec<char> = Vec::new();
    push_str(&mut line, "otpauth://totp/");
    push_str(&mut line, label.as_str());
    push_str(&mut line, "?secret=");
    push_all(&mut line, &secret);
    push_str(&mut line, "&issuer=");
    push_str(&mut line, issuer.as_str());
    line
}

/// The URIs of the accounts, one per line.
pub fn format_totp_list_to_text(list: &[TOTPInfo]) -> (r: String)
    ensures
        r@ == totp_list_text(list@.map_values(|t: TOTPInfo| t@)),
{
    let ghost models = list@.map_values(|t: TOTPInfo| t@);
    let ghost lines = models.map_values(|t: TotpModel| totp_line(t));
    let mut out: Vec<char> = Vec::new();
    let mut i: usize = 0;
    assert(lines.take(0) =~= Seq::<Seq<char>>::empty());
    while i < list.len()
        invariant
            i <= list.len(),
            models == list@.map_values(|t: TOTPInfo| t@),
            lines == models.map_values(|t: TotpModel| totp_line(t)),
            out@ == join_sep(lines.take(i as int), '\n'),
        decreases list.len() - i,
    {
        let line = totp_line_exec(&list[i]);
        assert(lines[i as int] == totp_line(list@[i as int]@));
        assert(lines.take(i + 1).drop_last() =~= lines.take(i as int));
        assert(lines.take(i + 1).last() == lines[i as int]);
        if i > 0 {
            out.push('\n');
        } else {
            assert(out@ =~= Seq::<char>::empty());
        }
        let ghost before = out@;
        push_all(&mut out, &line);
        proof {
            if i > 0 {
                assert(out@ =~= join_sep(lines.take(i as int), '\n') + seq!['\n'] + line@);
            } else {
                assert(lines.take(1) =~= seq![lines[0]]);
                assert(out@ =~= line@);
            }
        }
        i = i + 1;
    }
    assert(lines.take(list.len() as int) =~= lines);
    string_of(&out)
}

/// The JSON object of one account.
fn account_json_exec(item: &TOTPInfo) -> (r: Vec<char>)
    ensures
        r@ == account_json(item@),
{
    let mut out: Vec<char> = Vec::new();
    push_str(&mut out, "{\"name\":");
    push_str(&mut out, json_quote(item.name.as_str()).as_str());
    push_str(&mut out, ",\"usr\":");
    push_str(&mut out, json_quote(item.usr.as_str()).as_str());
    push_str(&mut out, ",\"key\":");
    push_str(&mut out, json_quote(item.key.as_str()).as_str());
    push_str(&mut out, ",\"algorithm\":");
    push_str(&mut out, json_quote(item.algorithm.as_str()).as_str());
    push_str(&mut out, ",\"digits\":");
    push_all(&mut out, &nat_digits_exec(item.digits as u64));
    push_str(&mut out, ",\"period\":");
    push_all(&mut out, &nat_digits_exec(item.period as u64));
    push_str(&mut out, "}");
    out
}

/// The message that pushes accounts to the watch.
pub fn push_payload_json(list: &[TOTPInfo]) -> (r: String)
    ensures
        r@ == push_payload(list@.map_values(|t: TOTPInfo| t@)),
{
    let ghost models = list@.map_values(|t: TOTPInfo| t@);
    let ghost objs = models.map_values(|t: TotpModel| account_json(t));
    let mut body: Vec<char> = Vec::new();
    let mut i: usize = 0;
    assert(objs.take(0) =~= Seq::<Seq<char>>::empty());
    while i < list.len()
        invariant
            i <= list.len(),
            models == list@.map_values(|t: TOTPInfo| t@),
            objs == models.map_values(|t: TotpModel| account_json(t)),
            body@ == join_sep(objs.take(i as int), ','),
        decreases list.len() - i,
    {
        let obj = account_json_exec(&list[i]);
        assert(objs[i as int] == account_json(list@[i as int]@));
        assert(objs.take(i + 1).drop_last() =~= objs.take(i as int));
        assert(objs.take(i + 1).last() == objs[i as int]);
        if i > 0 {
            body.push(',');
        } else {
            assert(body@ =~= Seq::<char>::empty());
        }
        push_all(&mut body, &obj);
        proof {
            if i > 0 {
                assert(body@ =~= join_sep(objs.take(i as int), ',') + seq![','] + obj@);
            } else {
                assert(objs.take(1) =~= seq![objs[0]]);
                assert(body@ =~= obj@);
            }
        }
        i = i + 1;
    }
    assert(objs.take(list.len() as int) =~= objs);
    let mut out: Vec<char> = Vec::new();
    push_str(&mut out, "{\"list\":[");
    push_all(&mut out, &body);
    push_str(&mut out, "]}");
    string_of(&out)
}

/// The text `t` stands in `s` from position `k` on.
pub open spec fn occurs_at(s: Seq<char>, t: Seq<char>, k: int) -> bool {
    &&& 0 <= k
    &&& k + t.len() <= s.len()
    &&& s.subrange(k, k + t.len()) == t
}

/// Each joined text stands somewhere in the joined result.
proof fn lemma_join_holds(ls: Seq<Seq<char>>, sep: char, i: int) -> (k: int)
    requires
        0 <= i < ls.len(),
    ensures
        occurs_at(join_sep(ls, sep), ls[i], k),
    decreases ls.len(),
{
    if ls.len() == 1 {
        assert(join_sep(ls, sep).subrange(0, ls[0].len() as int) =~= ls[0]);
        0
    } else {
        let front = ls.drop_last();
        let jf = join_sep(front, sep);
        let j = join_sep(ls, sep);
        assert(j == jf + seq![sep] + ls.last());
        if i < ls.len() - 1 {
            let k = lemma_join_holds(front, sep, i);
            assert(front[i] == ls[i]);
            assert(j.subrange(k, k + ls[i].len()) =~= jf.subrange(k, k + ls[i].len()));
            k
        } else {
            let k: int = jf.len() as int + 1;
            assert(j.subrange(k, k + ls[i].len()) =~= ls.last());
            k
        }
    }
}

/// The push message carries every account whole: for each account of the
/// list, the message holds the object with its own name, account name,
/// key, algorithm, digits and period, each string as a JSON string literal
/// and each number in decimal.
pub proof fn law_push_message_carries_each_account(list: Seq<TotpModel>, i: int)
    requires
        0 <= i < list.len(),
    ensures
        exists|k: int|
            occurs_at(
                push_payload(list),
                "{\"name\":"@ + json_string_literal(list[i].name) + ",\"usr\":"@ + json_string_literal(
                    list[i].usr,
                ) + ",\"key\":"@ + json_string_literal(list[i].key) + ",\"algorithm\":"@
                    + json_string_literal(list[i].algorithm) + ",\"digits\":"@ + nat_digits(
                    list[i].digits as nat,
                ) + ",\"period\":"@ + nat_digits(list[i].period as nat) + "}"@,
                k,
            ),
{
    let objs = list.map_values(|t: TotpModel| account_json(t));
    let obj = account_json(list[i]);
    let k = lemma_join_holds(objs, ',', i);
    let pre = "{\"list\":["@;
    let j = join_sep(objs, ',');
    let msg = push_payload(list);
    assert(msg == pre + j + "]}"@);
    let k2: int = pre.len() as int + k;
    assert(msg.subrange(k2, k2 + obj.len()) =~= j.subrange(k, k + obj.len()));
    assert(occurs_at(msg, obj, k2));
}

} // verus!
