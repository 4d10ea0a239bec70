//! Reading back a backup list: the text that a backup writes into the
//! input box gives the same accounts again when it is pushed.
use vstd::prelude::*;
use vstd::utf8::*;
use crate::input::{
    all_accounts,
    entry_result,
    entry_splits_cleanly,
    input_entries,
    input_model,
    input_splits_cleanly,
    nonempty_trimmed,
};
use crate::payload::{join_sep, totp_label, totp_line, totp_list_text};
use crate::percent::{
    law_percent_decode_inverts_encode,
    law_percent_encode_writes_safe_chars,
    pct_decode_bytes,
    pct_encode_bytes,
    pct_safe,
    pct_text,
};
use crate::text::{
    ascii_upper,
    ascii_upper_seq,
    first_index,
    is_ws,
    split_on,
    split_once,
    trim,
    trim_end,
    trim_start,
    upper_text,
};
use crate::totp::TotpModel;
use crate::uri::{ci_prefix, decoded, label_and_query, label_parts, lookup, query_param, totp_uri_model};

verus! {

broadcast use vstd::utf8::group_utf8_lib;

/// A character of a written URI: one that percent-encoding writes, or one
/// of the delimiters `:`, `/`, `?`, `=` and `&`.
pub open spec fn uri_char(c: char) -> bool {
    ||| pct_safe(c)
    ||| c == ':'
    ||| c == '/'
    ||| c == '?'
    ||| c == '='
    ||| c == '&'
}

/// Every character of `s` is one of a written URI.
pub open spec fn uri_text(s: Seq<char>) -> bool {
    forall|i: int| 0 <= i < s.len() ==> uri_char(#[trigger] s[i])
}

proof fn lemma_uri_char_not_ws(c: char)
    requires
        uri_char(c),
    ensures
        !is_ws(c),
        c != '\n',
        c != '\0',
        '\0' <= c <= '\u{7f}',
{
}

/// A text that starts and ends with characters other than white space is
/// its own trim.
proof fn lemma_trim_unchanged(s: Seq<char>)
    requires
        s.len() > 0,
        !is_ws(s[0]),
        !is_ws(s.last()),
    ensures
        trim(s) == s,
{
    assert(trim_start(s) == s);
    assert(trim_end(s) == s);
}

/// The first occurrence of `c` is at `i` when `s[i]` is `c` and no
/// character before it is.
proof fn lemma_first_index_at(s: Seq<char>, c: char, i: int)
    requires
        0 <= i < s.len(),
        s[i] == c,
        forall|j: int| 0 <= j < i ==> s[j] != c,
    ensures
        first_index(s, c) == Some(i),
    decreases s.len(),
{
    if i == s.len() - 1 {
        lemma_first_index_none(s.drop_last(), c);
    } else {
        lemma_first_index_at(s.drop_last(), c, i);
    }
}

/// A text without `c` has no first occurrence of it.
proof fn lemma_first_index_none(s: Seq<char>, c: char)
    requires
        forall|j: int| 0 <= j < s.len() ==> s[j] != c,
    ensures
        first_index(s, c) is None,
    decreases s.len(),
{
    if s.len() > 0 {
        lemma_first_index_none(s.drop_last(), c);
    }
}

/// Splitting at the first `c`, when `a` holds no `c`: `a` and `b`.
pub proof fn lemma_split_once_at(a: Seq<char>, c: char, b: Seq<char>)
    requires
        forall|j: int| 0 <= j < a.len() ==> a[j] != c,
    ensures
        split_once(a + seq![c] + b, c) == Some((a, b)),
{
    let s = a + seq![c] + b;
    assert(s[a.len() as int] == c);
    assert forall|j: int| 0 <= j < a.len() implies s[j] != c by {
        assert(s[j] == a[j]);
    }
    lemma_first_index_at(s, c, a.len() as int);
    assert(s.take(a.len() as int) =~= a);
    assert(s.skip(a.len() as int + 1) =~= b);
}

/// Appending text without separators extends the last piece.
proof fn lemma_split_on_plain(p: Seq<char>, c: Seq<char>, x: char, y: char)
    requires
        forall|j: int| 0 <= j < c.len() ==> c[j] != x && c[j] != y,
    ensures
        split_on(p + c, x, y) == split_on(p, x, y).update(
            split_on(p, x, y).len() - 1,
            split_on(p, x, y).last() + c,
        ),
        split_on(p + c, x, y).len() == split_on(p, x, y).len(),
    decreases c.len(),
{
    crate::text::lemma_split_on_nonempty(p, x, y);
    if c.len() == 0 {
        assert(p + c =~= p);
        assert(split_on(p, x, y).last() + c =~= split_on(p, x, y).last());
        assert(split_on(p, x, y).update(split_on(p, x, y).len() - 1, split_on(p, x, y).last())
            =~= split_on(p, x, y));
    } else {
        let c0 = c.drop_last();
        lemma_split_on_plain(p, c0, x, y);
        assert((p + c).drop_last() =~= p + c0);
        assert((p + c).last() == c.last());
        let q = split_on(p, x, y);
        let n = q.len() - 1;
        assert(split_on(p + c0, x, y).last() == q.last() + c0);
        assert((q.last() + c0).push(c.last()) =~= q.last() + c);
        assert(split_on(p + c, x, y) =~= q.update(n, q.last() + c));
    }
}

/// Appending a separator starts a new, empty piece.
proof fn lemma_split_on_sep(p: Seq<char>, x: char, y: char)
    ensures
        split_on(p.push(x), x, y) == split_on(p, x, y).push(Seq::<char>::empty()),
{
    assert(p.push(x).drop_last() =~= p);
}

/// Text without separators is one piece.
proof fn lemma_split_on_single(c: Seq<char>, x: char, y: char)
    requires
        forall|j: int| 0 <= j < c.len() ==> c[j] != x && c[j] != y,
    ensures
        split_on(c, x, y) == seq![c],
{
    let e = Seq::<char>::empty();
    lemma_split_on_plain(e, c, x, y);
    assert(e + c =~= c);
    assert(split_on(e, x, y) == seq![e]);
    assert(e + c =~= c);
    assert(seq![e].update(0, e + c) =~= seq![c]);
}

/// Lines without separators, joined with line feeds, split back into the
/// same lines.
proof fn lemma_split_join(ls: Seq<Seq<char>>)
    requires
        ls.len() >= 1,
        forall|i: int, j: int|
            0 <= i < ls.len() && 0 <= j < ls[i].len() ==> #[trigger] ls[i][j] != '\n' && ls[i][j]
                != '\0',
    ensures
        split_on(join_sep(ls, '\n'), '\n', '\0') == ls,
    decreases ls.len(),
{
    let last = ls.last();
    assert forall|j: int| 0 <= j < last.len() implies last[j] != '\n' && last[j] != '\0' by {
        assert(ls[ls.len() - 1][j] == last[j]);
    }
    if ls.len() == 1 {
        lemma_split_on_single(ls[0], '\n', '\0');
        assert(ls =~= seq![ls[0]]);
    } else {
        let front = ls.drop_last();
        assert forall|i: int, j: int| 0 <= i < front.len() && 0 <= j < front[i].len() implies #[trigger] front[i][j]
            != '\n' && front[i][j] != '\0' by {
            assert(front[i] == ls[i]);
        }
        lemma_split_join(front);
        let jf = join_sep(front, '\n');
        lemma_split_on_sep(jf, '\n', '\0');
        lemma_split_on_plain(jf.push('\n'), last, '\n', '\0');
        assert(join_sep(ls, '\n') =~= jf.push('\n') + last);
        let e = Seq::<char>::empty();
        assert(e + last =~= last);
        assert(front.push(e).update(front.len() as int, e + last) =~= ls);
    }
}

/// Trimmed, non-empty pieces are kept as they are.
proof fn lemma_nonempty_trimmed_keeps(ls: Seq<Seq<char>>)
    requires
        forall|i: int| 0 <= i < ls.len() ==> #[trigger] trim(ls[i]) == ls[i] && ls[i].len() > 0,
    ensures
        nonempty_trimmed(ls) == ls,
    decreases ls.len(),
{
    if ls.len() > 0 {
        let front = ls.drop_last();
        assert forall|i: int| 0 <= i < front.len() implies #[trigger] trim(front[i]) == front[i]
            && front[i].len() > 0 by {
            assert(front[i] == ls[i]);
        }
        lemma_nonempty_trimmed_keeps(front);
        assert(trim(ls[ls.len() - 1]) == ls.last());
        assert(front.push(ls.last()) =~= ls);
    }
}

/// The joined text starts with the first line's first character and ends
/// with the last line's last character.
proof fn lemma_join_ends(ls: Seq<Seq<char>>)
    requires
        ls.len() >= 1,
        forall|i: int| 0 <= i < ls.len() ==> (#[trigger] ls[i]).len() > 0,
    ensures
        join_sep(ls, '\n').len() > 0,
        join_sep(ls, '\n')[0] == ls[0][0],
        join_sep(ls, '\n').last() == ls.last().last(),
    decreases ls.len(),
{
    assert(ls[ls.len() - 1].len() > 0);
    if ls.len() > 1 {
        let front = ls.drop_last();
        assert forall|i: int| 0 <= i < front.len() implies (#[trigger] front[i]).len() > 0 by {
            assert(front[i] == ls[i]);
        }
        lemma_join_ends(front);
        assert(front[0] == ls[0]);
    } else {
        assert(ls[0].len() > 0);
    }
}

/// An ASCII letter or digit.
pub open spec fn ascii_alnum(c: char) -> bool {
    ||| 'A' <= c <= 'Z'
    ||| 'a' <= c <= 'z'
    ||| '0' <= c <= '9'
}

/// An account that its line of a backup list gives back: its name has a
/// non-blank part and no `:`, its account name is non-empty and trimmed,
/// its key is non-empty and made of ASCII letters and digits.
pub open spec fn relists(t: TotpModel) -> bool {
    &&& trim(t.name).len() > 0
    &&& forall|i: int| 0 <= i < t.name.len() ==> #[trigger] t.name[i] != ':'
    &&& t.usr.len() > 0
    &&& trim(t.usr) == t.usr
    &&& t.key.len() > 0
    &&& forall|i: int| 0 <= i < t.key.len() ==> ascii_alnum(#[trigger] t.key[i])
}

/// The account that a line of a backup list gives back: the same name,
/// account name and upper-cased key, with the default algorithm, digits
/// and period (the line does not carry them).
pub open spec fn reimported(t: TotpModel) -> TotpModel {
    TotpModel { key: ascii_upper_seq(t.key), algorithm: "SHA1"@, digits: 6, period: 30, ..t }
}

/// The percent-encoded label of an account's line.
spec fn label_enc(t: TotpModel) -> Seq<char> {
    pct_encode_bytes(encode_utf8(totp_label(t)))
}

/// The percent-encoded issuer of an account's line.
spec fn issuer_enc(t: TotpModel) -> Seq<char> {
    pct_encode_bytes(encode_utf8(t.name))
}

/// The `secret` parameter of an account's line.
spec fn secret_part(t: TotpModel) -> Seq<char> {
    "secret="@ + ascii_upper_seq(t.key)
}

/// The `issuer` parameter of an account's line.
spec fn issuer_part(t: TotpModel) -> Seq<char> {
    "issuer="@ + issuer_enc(t)
}

/// The query of an account's line.
spec fn query_of(t: TotpModel) -> Seq<char> {
    secret_part(t).push('&') + issuer_part(t)
}

proof fn lemma_key_upper(t: TotpModel)
    requires
        relists(t),
    ensures
        upper_text(t.key) == ascii_upper_seq(t.key),
        ascii_upper_seq(t.key).len() > 0,
        forall|i: int|
            0 <= i < ascii_upper_seq(t.key).len() ==> pct_safe(#[trigger] ascii_upper_seq(t.key)[i]),
{
    assert(is_ascii_chars(t.key)) by {
        assert forall|i: int| 0 <= i < t.key.len() implies '\0' <= #[trigger] t.key[i] <= '\u{7f}' by {
            assert(ascii_alnum(t.key[i]));
        }
    }
    assert forall|i: int| 0 <= i < ascii_upper_seq(t.key).len() implies pct_safe(
        #[trigger] ascii_upper_seq(t.key)[i],
    ) by {
        assert(ascii_alnum(t.key[i]));
        assert(ascii_upper_seq(t.key)[i] == ascii_upper(t.key[i]));
    }
}

/// The pieces of an account's line, and the characters it is made of.
proof fn lemma_line_pieces(t: TotpModel)
    requires
        relists(t),
    ensures
        totp_line(t) == "otpauth://totp/"@ + label_enc(t) + seq!['?'] + query_of(t),
        uri_text(totp_line(t)),
        pct_text(label_enc(t)),
        pct_text(issuer_enc(t)),
        pct_text(ascii_upper_seq(t.key)),
        uri_text(secret_part(t)),
        uri_text(issuer_part(t)),
        totp_line(t).len() > 15,
        totp_line(t)[0] == 'o',
        totp_line(t)[7] == ':',
        totp_line(t).take(15) == "otpauth://totp/"@,
        totp_line(t).skip(15) == label_enc(t) + seq!['?'] + query_of(t),
{
    reveal_strlit("otpauth://totp/");
    reveal_strlit("?secret=");
    reveal_strlit("&issuer=");
    reveal_strlit("secret=");
    reveal_strlit("issuer=");
    lemma_key_upper(t);
    law_percent_encode_writes_safe_chars(encode_utf8(totp_label(t)));
    law_percent_encode_writes_safe_chars(encode_utf8(t.name));
    let l1 = "otpauth://totp/"@;
    let k = ascii_upper_seq(t.key);
    let line = totp_line(t);
    assert(line =~= l1 + label_enc(t) + seq!['?'] + query_of(t));
    assert(uri_text(l1));
    assert(uri_text(secret_part(t)));
    assert(uri_text(issuer_part(t)));
    assert(uri_text(query_of(t)));
    assert(uri_text(line)) by {
        let a = l1 + label_enc(t) + seq!['?'];
        assert(uri_text(a));
        assert(line =~= a + query_of(t));
    }
    assert(line.take(15) =~= l1);
    assert(line.skip(15) =~= label_enc(t) + seq!['?'] + query_of(t));
}

/// Percent-decoding leaves bytes without `%` and `+` as they are.
proof fn lemma_decode_plain(b: Seq<u8>)
    requires
        forall|i: int| 0 <= i < b.len() ==> #[trigger] b[i] != 0x25 && b[i] != 0x2b,
    ensures
        pct_decode_bytes(b, true) == b,
    decreases b.len(),
{
    if b.len() > 0 {
        assert(b[0] != 0x25 && b[0] != 0x2b);
        let r = b.skip(1);
        assert forall|i: int| 0 <= i < r.len() implies #[trigger] r[i] != 0x25 && r[i] != 0x2b by {
            assert(r[i] == b[i + 1]);
        }
        lemma_decode_plain(r);
        assert(seq![b[0]] + r =~= b);
    }
}

/// The upper-cased key reads back as itself.
proof fn lemma_key_decodes(t: TotpModel)
    requires
        relists(t),
    ensures
        decoded(ascii_upper_seq(t.key), true) == ascii_upper_seq(t.key),
{
    lemma_line_pieces(t);
    let k = ascii_upper_seq(t.key);
    assert(is_ascii_chars(k)) by {
        assert forall|i: int| 0 <= i < k.len() implies '\0' <= #[trigger] k[i] <= '\u{7f}' by {
            assert(pct_safe(k[i]));
        }
    }
    let b = encode_utf8(k);
    assert forall|i: int| 0 <= i < b.len() implies #[trigger] b[i] != 0x25 && b[i] != 0x2b by {
        assert(b[i] == k[i] as u8);
        assert(pct_safe(k[i]));
        assert(k[i] != '%');
    }
    lemma_decode_plain(b);
}

/// The query of a line splits into its two parameters.
proof fn lemma_query_pieces(t: TotpModel)
    requires
        relists(t),
    ensures
        split_on(query_of(t), '&', '&') == seq![secret_part(t), issuer_part(t)],
        split_once(secret_part(t), '=') == Some(("secret"@, ascii_upper_seq(t.key))),
        split_once(issuer_part(t), '=') == Some(("issuer"@, issuer_enc(t))),
{
    reveal_strlit("secret=");
    reveal_strlit("issuer=");
    reveal_strlit("secret");
    reveal_strlit("issuer");
    lemma_line_pieces(t);
    let a = secret_part(t);
    let b = issuer_part(t);
    let k = ascii_upper_seq(t.key);
    let e = issuer_enc(t);
    assert forall|j: int| 0 <= j < a.len() implies a[j] != '&' && a[j] != '&' by {
        if j >= 7 {
            assert(a[j] == k[j - 7]);
            assert(pct_safe(k[j - 7]));
        }
    }
    assert forall|j: int| 0 <= j < b.len() implies b[j] != '&' && b[j] != '&' by {
        if j >= 7 {
            assert(b[j] == e[j - 7]);
            assert(pct_safe(e[j - 7]));
        }
    }
    lemma_split_on_single(a, '&', '&');
    lemma_split_on_sep(a, '&', '&');
    lemma_split_on_plain(a.push('&'), b, '&', '&');
    let emp = Seq::<char>::empty();
    assert(emp + b =~= b);
    assert(seq![a].push(emp).update(1, emp + b) =~= seq![a, b]);
    assert forall|j: int| 0 <= j < k.len() implies k[j] != '=' by {
        assert(pct_safe(k[j]));
    }
    assert forall|j: int| 0 <= j < e.len() implies e[j] != '=' by {
        assert(pct_safe(e[j]));
    }
    assert(a =~= "secret"@ + seq!['='] + k);
    assert(b =~= "issuer"@ + seq!['='] + e);
    assert forall|j: int| 0 <= j < "secret"@.len() implies "secret"@[j] != '=' by {}
    assert forall|j: int| 0 <= j < "issuer"@.len() implies "issuer"@[j] != '=' by {}
    lemma_split_once_at("secret"@, '=', k);
    lemma_split_once_at("issuer"@, '=', e);
}

/// The parameters that a line's query gives.
proof fn lemma_line_params(t: TotpModel)
    requires
        relists(t),
    ensures
        query_param(query_of(t), "secret"@, true) == Some(ascii_upper_seq(t.key)),
        query_param(query_of(t), "issuer"@, true) == Some(t.name),
        query_param(query_of(t), "algorithm"@, true) is None,
        query_param(query_of(t), "digits"@, true) is None,
        query_param(query_of(t), "period"@, true) is None,
{
    reveal_strlit("secret");
    reveal_strlit("issuer");
    reveal_strlit("algorithm");
    reveal_strlit("digits");
    reveal_strlit("period");
    lemma_query_pieces(t);
    lemma_key_decodes(t);
    law_percent_decode_inverts_encode(t.name, true);
    reveal_with_fuel(lookup, 3);
    let parts = seq![secret_part(t), issuer_part(t)];
    assert(parts.drop_first() =~= seq![issuer_part(t)]);
    assert(seq![issuer_part(t)].drop_first() =~= Seq::<Seq<char>>::empty());
    assert("secret"@ != "issuer"@) by {
        assert("secret"@[0] != "issuer"@[0]);
    }
    assert("secret"@ != "algorithm"@) by {
        assert("secret"@.len() != "algorithm"@.len());
    }
    assert("issuer"@ != "algorithm"@) by {
        assert("issuer"@.len() != "algorithm"@.len());
    }
    assert("secret"@ != "digits"@) by {
        assert("secret"@[0] != "digits"@[0]);
    }
    assert("issuer"@ != "digits"@) by {
        assert("issuer"@[0] != "digits"@[0]);
    }
    assert("secret"@ != "period"@) by {
        assert("secret"@[0] != "period"@[0]);
    }
    assert("issuer"@ != "period"@) by {
        assert("issuer"@[0] != "period"@[0]);
    }
    assert(lookup(parts, "secret"@) == Some(ascii_upper_seq(t.key)));
    assert(lookup(parts, "issuer"@) == Some(issuer_enc(t)));
    assert(lookup(parts, "algorithm"@) is None);
    assert(lookup(parts, "digits"@) is None);
    assert(lookup(parts, "period"@) is None);
}

/// The label of a line reads back as the name and the account name.
proof fn lemma_line_label(t: TotpModel)
    requires
        relists(t),
    ensures
        label_parts(decoded(label_enc(t), true)) == (trim(t.name), t.usr),
{
    reveal_strlit(":");
    law_percent_decode_inverts_encode(totp_label(t), true);
    assert(totp_label(t) =~= t.name + seq![':'] + t.usr);
    lemma_split_once_at(t.name, ':', t.usr);
}

/// The account that a line describes.
proof fn lemma_line_model(t: TotpModel)
    requires
        relists(t),
    ensures
        totp_uri_model(totp_line(t)) == Ok::<TotpModel, crate::uri::UriError>(reimported(t)),
{
    reveal_strlit("otpauth://totp/");
    reveal_strlit("SHA1");
    lemma_line_pieces(t);
    lemma_line_label(t);
    lemma_line_params(t);
    let line = totp_line(t);
    let l1 = "otpauth://totp/"@;
    assert(ci_prefix(line, l1)) by {
        assert forall|i: int| 0 <= i < l1.len() implies crate::text::ascii_lower(#[trigger] line[i])
            == crate::text::ascii_lower(l1[i]) by {
            assert(line[i] == line.take(15)[i]);
        }
    }
    let le = label_enc(t);
    assert(label_and_query(line.skip(15)) == (le, query_of(t))) by {
        assert forall|j: int| 0 <= j < le.len() implies le[j] != '?' by {
            assert(pct_safe(le[j]));
        }
        lemma_split_once_at(le, '?', query_of(t));
    }
    assert(upper_text("SHA1"@) == "SHA1"@) by {
        assert(is_ascii_chars("SHA1"@));
        assert(ascii_upper_seq("SHA1"@) =~= "SHA1"@);
    }
    assert(t.name.len() > 0) by {
        if t.name.len() == 0 {
            assert(trim_start(t.name) == t.name);
            assert(trim_end(t.name) == t.name);
        }
    }
}

/// A line is its own trim, and matching the URI prefixes on it splits no
/// character.
proof fn lemma_line_clean(t: TotpModel)
    requires
        relists(t),
    ensures
        entry_splits_cleanly(totp_line(t)),
        crate::uri::splits_at(totp_line(t), 15),
        trim(totp_line(t)) == totp_line(t),
{
    lemma_line_pieces(t);
    let line = totp_line(t);
    assert(is_ascii_chars(line)) by {
        assert forall|i: int| 0 <= i < line.len() implies '\0' <= #[trigger] line[i] <= '\u{7f}' by {
            lemma_uri_char_not_ws(line[i]);
        }
    }
    let bytes = encode_utf8(line);
    assert(bytes.len() == line.len());
    encode_utf8_valid_utf8(line);
    is_char_boundary_start_end_of_seq(bytes);
    assert(crate::uri::splits_at(line, 27)) by {
        if 27 < bytes.len() {
            assert(bytes[27] == line[27] as u8);
            lemma_uri_char_not_ws(line[27]);
            is_char_boundary_iff_not_is_continuation_byte(bytes, 27);
        }
    }
    assert(crate::uri::splits_at(line, 15)) by {
        assert(bytes[15] == line[15] as u8);
        lemma_uri_char_not_ws(line[15]);
        is_char_boundary_iff_not_is_continuation_byte(bytes, 15);
    }
    lemma_uri_char_not_ws(line[0]);
    lemma_uri_char_not_ws(line.last());
    lemma_trim_unchanged(line);
}

/// A line reads back as the account it was written for.
proof fn lemma_line_reads_back(t: TotpModel)
    requires
        relists(t),
    ensures
        entry_result(totp_line(t)) == Ok::<Seq<TotpModel>, crate::input::InputError>(
            seq![reimported(t)],
        ),
        entry_splits_cleanly(totp_line(t)),
        trim(totp_line(t)) == totp_line(t),
{
    reveal_strlit("otpauth-migration://offline");
    lemma_line_pieces(t);
    lemma_line_model(t);
    lemma_line_clean(t);
    assert(!ci_prefix(totp_line(t), "otpauth-migration://offline"@)) by {
        assert(totp_line(t)[7] == ':');
        assert("otpauth-migration://offline"@[7] == '-');
    }
}

/// One account written as a backup list reads back through
/// `parse_totp_uri` as the account it was written from: the same name,
/// account name and upper-cased key, with the default algorithm, digits and
/// period. This holds of accounts whose line can carry them (see
/// [`relists`]); matching the URI prefix on the line splits no character.
pub proof fn law_backup_line_reads_back(t: TotpModel)
    requires
        relists(t),
    ensures
        totp_list_text(seq![t]) == totp_line(t),
        crate::uri::splits_at(totp_list_text(seq![t]), 15),
        totp_uri_model(totp_list_text(seq![t])) == Ok::<TotpModel, crate::uri::UriError>(
            reimported(t),
        ),
{
    assert(seq![t].map_values(|u: TotpModel| totp_line(u)) =~= seq![totp_line(t)]);
    lemma_line_model(t);
    lemma_line_clean(t);
}

/// The lines of a backup list.
spec fn lines_of(list: Seq<TotpModel>) -> Seq<Seq<char>> {
    list.map_values(|t: TotpModel| totp_line(t))
}

/// The lines of a list without its last account, and the last line.
proof fn lemma_lines_drop_last(list: Seq<TotpModel>)
    requires
        list.len() > 0,
    ensures
        lines_of(list).drop_last() == lines_of(list.drop_last()),
        lines_of(list).len() == list.len(),
        lines_of(list).last() == totp_line(list.last()),
{
    assert(lines_of(list).drop_last() =~= lines_of(list.drop_last()));
}

/// The accounts that the lines of a backup list give, in order.
#[verifier::spinoff_prover]
#[verifier::rlimit(40)]
proof fn lemma_all_accounts(list: Seq<TotpModel>)
    requires
        forall|i: int| 0 <= i < list.len() ==> relists(#[trigger] list[i]),
    ensures
        all_accounts(lines_of(list)) == list.map_values(|t: TotpModel| reimported(t)),
    decreases list.len(),
{
    if list.len() > 0 {
        let front = list.drop_last();
        assert forall|i: int| 0 <= i < front.len() implies relists(#[trigger] front[i]) by {
            assert(front[i] == list[i]);
        }
        lemma_all_accounts(front);
        lemma_lines_drop_last(list);
        let last = list.last();
        assert(relists(list[list.len() - 1]));
        lemma_line_reads_back(last);
        let lines = lines_of(list);
        assert(all_accounts(lines) == all_accounts(lines.drop_last()) + seq![reimported(last)]);
        assert(front.map_values(|t: TotpModel| reimported(t)) + seq![reimported(last)]
            =~= list.map_values(|t: TotpModel| reimported(t)));
    }
}

/// The entries of a backup list's text are its lines, and the text
/// starts with the first line's `o`.
proof fn lemma_text_entries(list: Seq<TotpModel>)
    requires
        list.len() > 0,
        forall|i: int| 0 <= i < list.len() ==> relists(#[trigger] list[i]),
    ensures
        input_entries(totp_list_text(list)) == lines_of(list),
        trim(totp_list_text(list)) == totp_list_text(list),
        totp_list_text(list)[0] == 'o',
        forall|i: int|
            0 <= i < lines_of(list).len() ==> entry_splits_cleanly(#[trigger] lines_of(list)[i]),
{
    let lines = lines_of(list);
    let text = totp_list_text(list);
    assert(text == join_sep(lines, '\n'));
    assert forall|i: int| 0 <= i < lines.len() implies #[trigger] trim(lines[i]) == lines[i]
        && lines[i].len() > 0 && entry_splits_cleanly(lines[i]) && uri_text(lines[i])
        && lines[i][0] == 'o' by {
        assert(relists(list[i]));
        lemma_line_reads_back(list[i]);
        lemma_line_pieces(list[i]);
    }
    assert forall|i: int, j: int| 0 <= i < lines.len() && 0 <= j < lines[i].len() implies #[trigger] lines[i][j]
        != '\n' && lines[i][j] != '\0' by {
        assert(trim(lines[i]) == lines[i] && uri_text(lines[i]));
        lemma_uri_char_not_ws(lines[i][j]);
    }
    lemma_split_join(lines);
    lemma_nonempty_trimmed_keeps(lines);
    assert forall|i: int| 0 <= i < lines.len() implies (#[trigger] lines[i]).len() > 0 by {
        assert(trim(lines[i]) == lines[i] && lines[i].len() > 0);
    }
    lemma_join_ends(lines);
    assert(trim(lines[0]) == lines[0] && uri_text(lines[0]));
    let k = lines.len() - 1;
    assert(trim(lines[k]) == lines[k] && uri_text(lines[k]));
    lemma_uri_char_not_ws(text[0]);
    lemma_uri_char_not_ws(text.last());
    lemma_trim_unchanged(text);
    assert forall|i: int| 0 <= i < lines.len() implies entry_splits_cleanly(#[trigger] lines[i]) by {
        assert(trim(lines[i]) == lines[i] && entry_splits_cleanly(lines[i]));
    }
}

/// A backup list written into the input box reads back as the same
/// accounts: pushing the text of a backup gives each account again, with
/// its name, account name and upper-cased key, and the default algorithm,
/// digits and period. This holds of accounts whose line can carry them
/// (see [`relists`]); reading the text splits no character.
pub proof fn law_backup_text_reads_back(list: Seq<TotpModel>)
    requires
        list.len() > 0,
        forall|i: int| 0 <= i < list.len() ==> relists(#[trigger] list[i]),
    ensures
        input_splits_cleanly(totp_list_text(list)),
        input_model(totp_list_text(list)) == Ok::<Seq<TotpModel>, crate::input::InputError>(
            list.map_values(|t: TotpModel| reimported(t)),
        ),
{
    let text = totp_list_text(list);
    lemma_text_entries(list);
    assert(!crate::input::bracketed(trim(text)));
    lemma_all_accounts(list);
    assert(all_accounts(lines_of(list)).len() > 0);
}

} // verus!
