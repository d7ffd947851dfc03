use vstd::prelude::*;

use crate::host::{HostProtocol, HostV, protocol_label};

verus! {

// ---------------------------------------------------------------------------
// Characters
// ---------------------------------------------------------------------------

pub open spec fn is_digit(c: char) -> bool {
    48 <= c as u32 && c as u32 <= 57
}

pub open spec fn digit_val(c: char) -> u64 {
    (c as u32 - 48) as u64
}

pub open spec fn digit_char(n: u64) -> char
    recommends
        n < 10,
{
    ((n + 48) as u8) as char
}

pub open spec fn is_hex_lower(c: char) -> bool {
    (48 <= c as u32 && c as u32 <= 57) || (97 <= c as u32 && c as u32 <= 102)
}

pub open spec fn hex_val(c: char) -> u64 {
    if c as u32 <= 57 {
        (c as u32 - 48) as u64
    } else {
        (c as u32 - 87) as u64
    }
}

pub open spec fn hex_char(n: u64) -> char
    recommends
        n < 16,
{
    if n < 10 {
        ((n + 48) as u8) as char
    } else {
        ((n + 87) as u8) as char
    }
}

// ---------------------------------------------------------------------------
// Rendering: the exact text written to the registry file
// ---------------------------------------------------------------------------

/// The escaped form of one character inside a quoted string: quotes and
/// backslashes get a backslash escape, control characters a four-digit
/// hexadecimal escape, and every other character stands for itself.
pub open spec fn esc_char(c: char) -> Seq<char> {
    if c == '"' {
        seq!['\\', '"']
    } else if c == '\\' {
        seq!['\\', '\\']
    } else if (c as u32) < 32 {
        seq!['\\', 'u', '0', '0', hex_char(((c as u32) / 16) as u64), hex_char(
            ((c as u32) % 16) as u64,
        )]
    } else {
        seq![c]
    }
}

pub open spec fn esc_string(s: Seq<char>) -> Seq<char>
    decreases s.len(),
{
    if s.len() == 0 {
        Seq::empty()
    } else {
        esc_char(s[0]) + esc_string(s.drop_first())
    }
}

/// Decimal digits of `n`, most significant first.
pub open spec fn dec_rep(n: u64) -> Seq<char>
    decreases n,
{
    if n < 10 {
        seq![digit_char(n)]
    } else {
        dec_rep(n / 10) + seq![digit_char(n % 10)]
    }
}

/// A quoted, escaped string.
pub open spec fn render_jstring(s: Seq<char>) -> Seq<char> {
    seq!['"'] + esc_string(s) + seq!['"']
}

/// An optional credential: `null` when absent, a quoted string when present.
pub open spec fn render_opt(o: Option<Seq<char>>) -> Seq<char> {
    match o {
        None => "null"@,
        Some(s) => render_jstring(s),
    }
}

/// One host record, pretty-printed over seven lines.
pub open spec fn render_host(h: HostV) -> Seq<char> {
    "  {\n    \"id\": "@ + dec_rep(h.id) + ",\n    \"name\": "@ + render_jstring(h.name)
        + ",\n    \"ip\": "@ + render_jstring(h.ip) + ",\n    \"protocol\": "@ + render_jstring(
        protocol_label(h.protocol),
    ) + ",\n    \"username\": "@ + render_opt(h.username) + ",\n    \"password\": "@ + render_opt(
        h.password,
    ) + "\n  }"@
}

/// The host records of a non-empty registry, separated by commas.
pub open spec fn render_items(hs: Seq<HostV>) -> Seq<char>
    decreases hs.len(),
{
    if hs.len() == 0 {
        Seq::empty()
    } else if hs.len() == 1 {
        render_host(hs[0])
    } else {
        render_host(hs[0]) + ",\n"@ + render_items(hs.drop_first())
    }
}

/// The full registry file: a pretty-printed array of host records.
pub open spec fn render_hosts(hs: Seq<HostV>) -> Seq<char> {
    if hs.len() == 0 {
        "[]"@
    } else {
        "[\n"@ + render_items(hs) + "\n]"@
    }
}

// ---------------------------------------------------------------------------
// Parsing: the registry text read back from the file
// ---------------------------------------------------------------------------

/// Position just past `lit` when the text at `i` starts with `lit`.
pub open spec fn match_lit(s: Seq<char>, i: int, lit: Seq<char>) -> Option<int> {
    if 0 <= i && i + lit.len() <= s.len() && s.subrange(i, i + lit.len()) == lit {
        Some(i + lit.len())
    } else {
        None
    }
}

/// Digits folded left to right onto `acc`; stops at the first non-digit.
/// A value past the largest 64-bit integer is a parse failure.
pub open spec fn parse_digits(s: Seq<char>, i: int, acc: u64) -> Option<(u64, int)>
    decreases s.len() - i,
{
    if 0 <= i < s.len() && is_digit(s[i]) {
        if (acc as int) * 10 + (digit_val(s[i]) as int) > u64::MAX as int {
            None
        } else {
            parse_digits(s, i + 1, (acc * 10 + digit_val(s[i])) as u64)
        }
    } else {
        Some((acc, i))
    }
}

/// An unsigned decimal number: at least one digit.
pub open spec fn parse_u64(s: Seq<char>, i: int) -> Option<(u64, int)> {
    if 0 <= i < s.len() && is_digit(s[i]) {
        parse_digits(s, i, 0)
    } else {
        None
    }
}

/// The body of a quoted string, from just after the opening quote to just
/// past the closing quote, undoing the escapes of `esc_char`.
pub open spec fn parse_string_body(s: Seq<char>, i: int, acc: Seq<char>) -> Option<(Seq<char>, int)>
    decreases s.len() - i,
{
    if !(0 <= i < s.len()) {
        None
    } else if s[i] == '"' {
        Some((acc, i + 1))
    } else if s[i] == '\\' {
        if i + 2 <= s.len() && (s[i + 1] == '"' || s[i + 1] == '\\') {
            parse_string_body(s, i + 2, acc.push(s[i + 1]))
        } else if i + 6 <= s.len() && s[i + 1] == 'u' && s[i + 2] == '0' && s[i + 3] == '0'
            && is_hex_lower(s[i + 4]) && is_hex_lower(s[i + 5]) {
            parse_string_body(
                s,
                i + 6,
                acc.push(((hex_val(s[i + 4]) * 16 + hex_val(s[i + 5])) as u8) as char),
            )
        } else {
            None
        }
    } else {
        parse_string_body(s, i + 1, acc.push(s[i]))
    }
}

/// A quoted string.
pub open spec fn parse_jstring(s: Seq<char>, i: int) -> Option<(Seq<char>, int)> {
    if 0 <= i < s.len() && s[i] == '"' {
        parse_string_body(s, i + 1, Seq::empty())
    } else {
        None
    }
}

/// An optional credential: `null` or a quoted string.
pub open spec fn parse_opt(s: Seq<char>, i: int) -> Option<(Option<Seq<char>>, int)> {
    if 0 <= i < s.len() && s[i] == 'n' {
        match match_lit(s, i, "null"@) {
            None => None,
            Some(j) => Some((None, j)),
        }
    } else {
        match parse_jstring(s, i) {
            None => None,
            Some((t, j)) => Some((Some(t), j)),
        }
    }
}

/// The protocol named by a persisted label.
pub open spec fn protocol_of(label: Seq<char>) -> Option<HostProtocol> {
    if label == "VNC"@ {
        Some(HostProtocol::VNC)
    } else if label == "HTTP"@ {
        Some(HostProtocol::HTTP)
    } else if label == "HTTPS"@ {
        Some(HostProtocol::HTTPS)
    } else if label == "SSH"@ {
        Some(HostProtocol::SSH)
    } else {
        None
    }
}

/// One host record, in exactly the shape `render_host` writes.
pub open spec fn parse_host(s: Seq<char>, i: int) -> Option<(HostV, int)> {
    match match_lit(s, i, "  {\n    \"id\": "@) {
        None => None,
        Some(i1) => match parse_u64(s, i1) {
            None => None,
            Some((id, i2)) => match match_lit(s, i2, ",\n    \"name\": "@) {
                None => None,
                Some(i3) => match parse_jstring(s, i3) {
                    None => None,
                    Some((name, i4)) => match match_lit(s, i4, ",\n    \"ip\": "@) {
                        None => None,
                        Some(i5) => match parse_jstring(s, i5) {
                            None => None,
                            Some((ip, i6)) => match match_lit(s, i6, ",\n    \"protocol\": "@) {
                                None => None,
                                Some(i7) => match parse_jstring(s, i7) {
                                    None => None,
                                    Some((label, i8)) => match protocol_of(label) {
                                        None => None,
                                        Some(protocol) => match match_lit(
                                            s,
                                            i8,
                                            ",\n    \"username\": "@,
                                        ) {
                                            None => None,
                                            Some(i9) => match parse_opt(s, i9) {
                                                None => None,
                                                Some((username, i10)) => match match_lit(
                                                    s,
                                                    i10,
                                                    ",\n    \"password\": "@,
                                                ) {
                                                    None => None,
                                                    Some(i11) => match parse_opt(s, i11) {
                                                        None => None,
                                                        Some((password, i12)) => match match_lit(
                                                            s,
                                                            i12,
                                                            "\n  }"@,
                                                        ) {
                                                            None => None,
                                                            Some(i13) => Some(
                                                                (
                                                                    HostV {
                                                                        id,
                                                                        name,
                                                                        ip,
                                                                        protocol,
                                                                        username,
                                                                        password,
                                                                    },
                                                                    i13,
                                                                ),
                                                            ),
                                                        },
                                                    },
                                                },
                                            },
                                        },
                                    },
                                },
                            },
                        },
                    },
                },
            },
        },
    }
}

/// The host records of a non-empty array, each followed by either a comma
/// or the closing bracket.
pub open spec fn parse_items(s: Seq<char>, i: int, acc: Seq<HostV>) -> Option<(Seq<HostV>, int)>
    decreases s.len() - i,
{
    match parse_host(s, i) {
        None => None,
        Some((h, j)) => if !(i < j && j < s.len()) {
            None
        } else if s[j] == ',' {
            match match_lit(s, j, ",\n"@) {
                None => None,
                Some(k) => parse_items(s, k, acc.push(h)),
            }
        } else {
            match match_lit(s, j, "\n]"@) {
                None => None,
                Some(k) => Some((acc.push(h), k)),
            }
        },
    }
}

/// A full registry file. Only text in exactly the shape `render_hosts`
/// writes is accepted; everything else is malformed.
pub open spec fn parse_hosts(s: Seq<char>) -> Option<Seq<HostV>> {
    if s == "[]"@ {
        Some(Seq::empty())
    } else {
        match match_lit(s, 0, "[\n"@) {
            None => None,
            Some(i) => match parse_items(s, i, Seq::empty()) {
                None => None,
                Some((hs, j)) => if j == s.len() {
                    Some(hs)
                } else {
                    None
                },
            },
        }
    }
}

/// The registry a caller sees for given file content: a missing file and a
/// malformed file are both an empty registry.
pub open spec fn loaded_hosts(content: Option<Seq<char>>) -> Seq<HostV> {
    match content {
        None => Seq::empty(),
        Some(s) => match parse_hosts(s) {
            Some(hs) => hs,
            None => Seq::empty(),
        },
    }
}

// ---------------------------------------------------------------------------
// Round trip: parsing recovers exactly what rendering wrote
// ---------------------------------------------------------------------------

proof fn lemma_digit_char_val(n: u64)
    requires
        n < 10,
    ensures
        is_digit(digit_char(n)),
        digit_val(digit_char(n)) == n,
{
}

proof fn lemma_hex_char_val(n: u64)
    requires
        n < 16,
    ensures
        is_hex_lower(hex_char(n)),
        hex_val(hex_char(n)) == n,
{
}

proof fn lemma_control_char_round(c: char)
    requires
        (c as u32) < 32,
    ensures
        ((((c as u32) / 16) * 16 + (c as u32) % 16) as u8) as char == c,
{
}

/// Text that starts with `a + b` at `o` starts with `a` at `o` and with `b`
/// just past it.
proof fn lemma_slice_split(s: Seq<char>, o: int, a: Seq<char>, b: Seq<char>)
    requires
        0 <= o,
        forall|k: int| 0 <= k < a.len() + b.len() ==> s[o + k] == (a + b)[k],
    ensures
        forall|k: int| 0 <= k < a.len() ==> s[o + k] == a[k],
        forall|k: int| 0 <= k < b.len() ==> s[o + a.len() + k] == b[k],
{
    assert forall|k: int| 0 <= k < a.len() implies s[o + k] == a[k] by {
        assert(s[o + k] == (a + b)[k]);
    }
    assert forall|k: int| 0 <= k < b.len() implies s[o + a.len() + k] == b[k] by {
        assert(s[o + (a.len() + k)] == (a + b)[a.len() + k]);
    }
}

/// Parsing a string body over the escaped form of `t` followed by a closing
/// quote yields exactly `t`.
proof fn lemma_parse_esc_string(s: Seq<char>, i: int, acc: Seq<char>, t: Seq<char>)
    requires
        0 <= i,
        i + esc_string(t).len() + 1 <= s.len(),
        forall|k: int| 0 <= k < esc_string(t).len() ==> s[i + k] == esc_string(t)[k],
        s[i + esc_string(t).len()] == '"',
    ensures
        parse_string_body(s, i, acc) == Some((acc + t, i + esc_string(t).len() + 1)),
    decreases t.len(),
{
    if t.len() == 0 {
        assert(s[i] == '"');
        assert(acc + t =~= acc);
    } else {
        let c = t[0];
        let t1 = t.drop_first();
        let e = esc_char(c);
        let e1 = esc_string(t1);
        assert(esc_string(t) == e + e1);
        lemma_slice_split(s, i, e, e1);
        let i1 = i + e.len();
        assert(i1 + e1.len() == i + esc_string(t).len());
        if c == '"' || c == '\\' {
            assert(s[i] == '\\');
            assert(s[i + 1] == c);
            lemma_parse_esc_string(s, i + 2, acc.push(c), t1);
            assert(parse_string_body(s, i, acc) == parse_string_body(s, i + 2, acc.push(c)));
        } else if (c as u32) < 32 {
            let hi = ((c as u32) / 16) as u64;
            let lo = ((c as u32) % 16) as u64;
            lemma_hex_char_val(hi);
            lemma_hex_char_val(lo);
            lemma_control_char_round(c);
            assert(s[i] == '\\');
            assert(s[i + 1] == 'u');
            assert(s[i + 2] == '0');
            assert(s[i + 3] == '0');
            assert(s[i + 4] == hex_char(hi));
            assert(s[i + 5] == hex_char(lo));
            assert(((hex_val(s[i + 4]) * 16 + hex_val(s[i + 5])) as u8) as char == c);
            lemma_parse_esc_string(s, i + 6, acc.push(c), t1);
            assert(parse_string_body(s, i, acc) == parse_string_body(s, i + 6, acc.push(c)));
        } else {
            assert(s[i + 0] == e[0]);
            assert(s[i] == c);
            lemma_parse_esc_string(s, i + 1, acc.push(c), t1);
            assert(parse_string_body(s, i, acc) == parse_string_body(s, i + 1, acc.push(c)));
        }
        assert(acc.push(c) + t1 =~= acc + t);
    }
}

/// The number a run of digits folds to, read left to right.
spec fn fold_digits(ds: Seq<char>, acc: int) -> int
    decreases ds.len(),
{
    if ds.len() == 0 {
        acc
    } else {
        fold_digits(ds.drop_first(), acc * 10 + digit_val(ds[0]) as int)
    }
}

proof fn lemma_fold_digits_ge(ds: Seq<char>, acc: int)
    requires
        acc >= 0,
    ensures
        fold_digits(ds, acc) >= acc,
    decreases ds.len(),
{
    if ds.len() == 0 {
    } else {
        lemma_fold_digits_ge(ds.drop_first(), acc * 10 + digit_val(ds[0]) as int);
    }
}

proof fn lemma_parse_digits_fold(s: Seq<char>, i: int, acc: u64, ds: Seq<char>)
    requires
        0 <= i,
        i + ds.len() <= s.len(),
        forall|k: int| 0 <= k < ds.len() ==> s[i + k] == ds[k],
        forall|k: int| 0 <= k < ds.len() ==> is_digit(#[trigger] ds[k]),
        i + ds.len() == s.len() || !is_digit(s[i + ds.len()]),
        fold_digits(ds, acc as int) <= u64::MAX as int,
    ensures
        parse_digits(s, i, acc) == Some((fold_digits(ds, acc as int) as u64, i + ds.len())),
    decreases ds.len(),
{
    if ds.len() == 0 {
    } else {
        assert(s[i + 0] == ds[0]);
        let d = digit_val(ds[0]);
        lemma_fold_digits_ge(ds.drop_first(), acc as int * 10 + d as int);
        let acc1 = (acc * 10 + d) as u64;
        assert forall|k: int| 0 <= k < ds.drop_first().len() implies s[(i + 1) + k]
            == ds.drop_first()[k] by {
            assert(s[i + (k + 1)] == ds[k + 1]);
        }
        assert(forall|k: int| 0 <= k < ds.drop_first().len() ==> is_digit(
            #[trigger] ds.drop_first()[k],
        ));
        lemma_parse_digits_fold(s, i + 1, acc1, ds.drop_first());
    }
}

spec fn pow10(k: nat) -> int
    decreases k,
{
    if k == 0 {
        1
    } else {
        10 * pow10((k - 1) as nat)
    }
}

proof fn lemma_fold_snoc(ds: Seq<char>, d: char, acc: int)
    ensures
        fold_digits(ds.push(d), acc) == fold_digits(ds, acc) * 10 + digit_val(d) as int,
    decreases ds.len(),
{
    if ds.len() == 0 {
        assert(ds.push(d)[0] == d);
        assert(ds.push(d).drop_first() =~= Seq::<char>::empty());
        assert(fold_digits(ds.push(d), acc) == fold_digits(
            Seq::<char>::empty(),
            acc * 10 + digit_val(d) as int,
        ));
        assert(fold_digits(Seq::<char>::empty(), acc * 10 + digit_val(d) as int) == acc * 10
            + digit_val(d) as int);
    } else {
        assert(ds.push(d)[0] == ds[0]);
        assert(ds.push(d).drop_first() =~= ds.drop_first().push(d));
        lemma_fold_snoc(ds.drop_first(), d, acc * 10 + digit_val(ds[0]) as int);
    }
}

proof fn lemma_dec_rep_digits(n: u64)
    ensures
        dec_rep(n).len() >= 1,
        forall|k: int| 0 <= k < dec_rep(n).len() ==> is_digit(#[trigger] dec_rep(n)[k]),
    decreases n,
{
    if n < 10 {
        lemma_digit_char_val(n);
    } else {
        lemma_dec_rep_digits(n / 10);
        lemma_digit_char_val(n % 10);
        assert forall|k: int| 0 <= k < dec_rep(n).len() implies is_digit(
            #[trigger] dec_rep(n)[k],
        ) by {
            if k < dec_rep(n / 10).len() {
                assert(dec_rep(n)[k] == dec_rep(n / 10)[k]);
            } else {
                assert(dec_rep(n)[k] == digit_char(n % 10));
            }
        }
    }
}

proof fn lemma_fold_dec_rep(n: u64, acc: int)
    requires
        acc >= 0,
    ensures
        fold_digits(dec_rep(n), acc) == acc * pow10(dec_rep(n).len()) + n,
    decreases n,
{
    if n < 10 {
        lemma_digit_char_val(n);
        assert(dec_rep(n) == seq![digit_char(n)]);
        assert(seq![digit_char(n)][0] == digit_char(n));
        assert(seq![digit_char(n)].drop_first() =~= Seq::<char>::empty());
        assert(fold_digits(dec_rep(n), acc) == fold_digits(
            Seq::<char>::empty(),
            acc * 10 + digit_val(digit_char(n)) as int,
        ));
        assert(fold_digits(dec_rep(n), acc) == acc * 10 + n);
        assert(pow10(1nat) == 10 * pow10(0nat));
        assert(pow10(0nat) == 1);
        assert(dec_rep(n).len() == 1);
    } else {
        let q = n / 10;
        let r = n % 10;
        lemma_fold_dec_rep(q, acc);
        lemma_digit_char_val(r);
        lemma_fold_snoc(dec_rep(q), digit_char(r), acc);
        assert(dec_rep(n) == dec_rep(q) + seq![digit_char(r)]);
        assert(dec_rep(q).push(digit_char(r)) =~= dec_rep(q) + seq![digit_char(r)]);
        let kq = dec_rep(q).len();
        assert(dec_rep(n).len() == kq + 1);
        assert(pow10((kq + 1) as nat) == 10 * pow10(kq));
        assert(fold_digits(dec_rep(n), acc) == (acc * pow10(kq) + q) * 10 + r);
        assert((acc * pow10(kq) + q) * 10 + r == acc * (10 * pow10(kq)) + (q * 10 + r))
            by (nonlinear_arith);
        assert(q * 10 + r == n);
    }
}

/// Parsing a number over the decimal digits of `n` yields exactly `n`, as
/// long as no further digit follows.
proof fn lemma_parse_dec_rep(s: Seq<char>, i: int, n: u64)
    requires
        0 <= i,
        i + dec_rep(n).len() <= s.len(),
        forall|k: int| 0 <= k < dec_rep(n).len() ==> s[i + k] == dec_rep(n)[k],
        i + dec_rep(n).len() == s.len() || !is_digit(s[i + dec_rep(n).len()]),
    ensures
        parse_u64(s, i) == Some((n, i + dec_rep(n).len())),
{
    lemma_dec_rep_digits(n);
    lemma_fold_dec_rep(n, 0);
    assert(0 * pow10(dec_rep(n).len()) == 0) by (nonlinear_arith);
    lemma_parse_digits_fold(s, i, 0, dec_rep(n));
    assert(s[i + 0] == dec_rep(n)[0]);
}

/// Parsing a quoted string over the rendered form of `t` yields exactly `t`.
proof fn lemma_parse_render_jstring(s: Seq<char>, i: int, t: Seq<char>)
    requires
        0 <= i,
        i + render_jstring(t).len() <= s.len(),
        forall|k: int| 0 <= k < render_jstring(t).len() ==> s[i + k] == render_jstring(t)[k],
    ensures
        parse_jstring(s, i) == Some((t, i + render_jstring(t).len())),
{
    let e = esc_string(t);
    assert(render_jstring(t) == (seq!['"'] + e) + seq!['"']);
    lemma_slice_split(s, i, seq!['"'] + e, seq!['"']);
    lemma_slice_split(s, i, seq!['"'], e);
    assert(s[i + 0] == (seq!['"'])[0]);
    assert(s[i] == '"');
    assert(s[i + 1 + e.len() + 0] == (seq!['"'])[0]);
    assert(s[i + 1 + e.len()] == '"');
    lemma_parse_esc_string(s, i + 1, Seq::empty(), t);
    assert(Seq::empty() + t =~= t);
    assert(render_jstring(t).len() == e.len() + 2);
}

/// Parsing an optional credential over its rendered form yields it back.
proof fn lemma_parse_render_opt(s: Seq<char>, i: int, o: Option<Seq<char>>)
    requires
        0 <= i,
        i + render_opt(o).len() <= s.len(),
        forall|k: int| 0 <= k < render_opt(o).len() ==> s[i + k] == render_opt(o)[k],
    ensures
        parse_opt(s, i) == Some((o, i + render_opt(o).len())),
{
    reveal_strlit("null");
    match o {
        None => {
            assert(render_opt(o) == "null"@);
            assert("null"@[0] == 'n');
            assert(s[i + 0] == render_opt(o)[0]);
            assert(s[i] == 'n');
            assert(s.subrange(i, i + 4) =~= "null"@);
            assert(match_lit(s, i, "null"@) == Some(i + 4));
        },
        Some(t) => {
            assert(render_opt(o) == render_jstring(t));
            assert(s[i + 0] == render_jstring(t)[0]);
            assert(render_jstring(t)[0] == '"');
            lemma_parse_render_jstring(s, i, t);
        },
    }
}

proof fn lemma_protocol_of_label(p: HostProtocol)
    ensures
        protocol_of(protocol_label(p)) == Some(p),
{
    reveal_strlit("VNC");
    reveal_strlit("HTTP");
    reveal_strlit("HTTPS");
    reveal_strlit("SSH");
    match p {
        HostProtocol::VNC => {
        },
        HostProtocol::HTTP => {
            assert("HTTP"@.len() != "VNC"@.len());
        },
        HostProtocol::HTTPS => {
            assert("HTTPS"@.len() != "VNC"@.len());
            assert("HTTPS"@.len() != "HTTP"@.len());
        },
        HostProtocol::SSH => {
            assert("SSH"@[0] == 'S' && "VNC"@[0] == 'V');
            assert("SSH"@.len() != "HTTP"@.len());
            assert("SSH"@.len() != "HTTPS"@.len());
        },
    }
}

/// Parsing one host record over its rendered form yields it back.
proof fn lemma_parse_render_host(s: Seq<char>, i: int, h: HostV)
    requires
        0 <= i,
        i + render_host(h).len() <= s.len(),
        forall|k: int| 0 <= k < render_host(h).len() ==> s[i + k] == render_host(h)[k],
    ensures
        parse_host(s, i) == Some((h, i + render_host(h).len())),
{
    let l1 = "  {\n    \"id\": "@;
    let l2 = ",\n    \"name\": "@;
    let l3 = ",\n    \"ip\": "@;
    let l4 = ",\n    \"protocol\": "@;
    let l5 = ",\n    \"username\": "@;
    let l6 = ",\n    \"password\": "@;
    let l7 = "\n  }"@;
    let p1 = dec_rep(h.id);
    let p2 = render_jstring(h.name);
    let p3 = render_jstring(h.ip);
    let p4 = render_jstring(protocol_label(h.protocol));
    let p5 = render_opt(h.username);
    let p6 = render_opt(h.password);
    let a1 = l1;
    let a2 = a1 + p1;
    let a3 = a2 + l2;
    let a4 = a3 + p2;
    let a5 = a4 + l3;
    let a6 = a5 + p3;
    let a7 = a6 + l4;
    let a8 = a7 + p4;
    let a9 = a8 + l5;
    let a10 = a9 + p5;
    let a11 = a10 + l6;
    let a12 = a11 + p6;
    let a13 = a12 + l7;
    assert(render_host(h) == a13);
    lemma_slice_split(s, i, a12, l7);
    lemma_slice_split(s, i, a11, p6);
    lemma_slice_split(s, i, a10, l6);
    lemma_slice_split(s, i, a9, p5);
    lemma_slice_split(s, i, a8, l5);
    lemma_slice_split(s, i, a7, p4);
    lemma_slice_split(s, i, a6, l4);
    lemma_slice_split(s, i, a5, p3);
    lemma_slice_split(s, i, a4, l3);
    lemma_slice_split(s, i, a3, p2);
    lemma_slice_split(s, i, a2, l2);
    lemma_slice_split(s, i, a1, p1);
    reveal_strlit("  {\n    \"id\": ");
    reveal_strlit(",\n    \"name\": ");
    reveal_strlit(",\n    \"ip\": ");
    reveal_strlit(",\n    \"protocol\": ");
    reveal_strlit(",\n    \"username\": ");
    reveal_strlit(",\n    \"password\": ");
    reveal_strlit("\n  }");
    // the seven fixed pieces each match
    let o1 = i + a1.len();
    let o2 = i + a2.len();
    let o3 = i + a3.len();
    let o4 = i + a4.len();
    let o5 = i + a5.len();
    let o6 = i + a6.len();
    let o7 = i + a7.len();
    let o8 = i + a8.len();
    let o9 = i + a9.len();
    let o10 = i + a10.len();
    let o11 = i + a11.len();
    let o12 = i + a12.len();
    let o13 = i + a13.len();
    assert(s.subrange(i, i + l1.len()) =~= l1);
    assert(match_lit(s, i, l1) == Some(o1));
    // the id, followed by the comma that opens the name field
    assert(s[o1 + p1.len() + 0] == l2[0]);
    assert(!is_digit(l2[0]));
    lemma_parse_dec_rep(s, o1, h.id);
    assert(parse_u64(s, o1) == Some((h.id, o2)));
    assert(s.subrange(o2, o2 + l2.len()) =~= l2);
    assert(match_lit(s, o2, l2) == Some(o3));
    lemma_parse_render_jstring(s, o3, h.name);
    assert(parse_jstring(s, o3) == Some((h.name, o4)));
    assert(s.subrange(o4, o4 + l3.len()) =~= l3);
    assert(match_lit(s, o4, l3) == Some(o5));
    lemma_parse_render_jstring(s, o5, h.ip);
    assert(parse_jstring(s, o5) == Some((h.ip, o6)));
    assert(s.subrange(o6, o6 + l4.len()) =~= l4);
    assert(match_lit(s, o6, l4) == Some(o7));
    lemma_parse_render_jstring(s, o7, protocol_label(h.protocol));
    assert(parse_jstring(s, o7) == Some((protocol_label(h.protocol), o8)));
    lemma_protocol_of_label(h.protocol);
    assert(s.subrange(o8, o8 + l5.len()) =~= l5);
    assert(match_lit(s, o8, l5) == Some(o9));
    lemma_parse_render_opt(s, o9, h.username);
    assert(parse_opt(s, o9) == Some((h.username, o10)));
    assert(s.subrange(o10, o10 + l6.len()) =~= l6);
    assert(match_lit(s, o10, l6) == Some(o11));
    lemma_parse_render_opt(s, o11, h.password);
    assert(parse_opt(s, o11) == Some((h.password, o12)));
    assert(s.subrange(o12, o12 + l7.len()) =~= l7);
    assert(match_lit(s, o12, l7) == Some(o13));
    let hv = HostV {
        id: h.id,
        name: h.name,
        ip: h.ip,
        protocol: h.protocol,
        username: h.username,
        password: h.password,
    };
    assert(hv =~= h);
    assert(parse_host(s, i) == Some((hv, o13)));
}

proof fn lemma_render_host_len(h: HostV)
    ensures
        render_host(h).len() >= 1,
{
    reveal_strlit("  {\n    \"id\": ");
    assert(render_host(h).len() >= "  {\n    \"id\": "@.len());
}

/// Parsing the items of a non-empty array over their rendered form, with the
/// closing bracket just past them, yields them back, appended to `acc`.
#[verifier::rlimit(50)]
proof fn lemma_parse_render_items(s: Seq<char>, i: int, acc: Seq<HostV>, hs: Seq<HostV>)
    requires
        hs.len() >= 1,
        0 <= i,
        i + render_items(hs).len() + 2 <= s.len(),
        forall|k: int| 0 <= k < render_items(hs).len() ==> s[i + k] == render_items(hs)[k],
        s[i + render_items(hs).len()] == '\n',
        s[i + render_items(hs).len() + 1] == ']',
    ensures
        parse_items(s, i, acc) == Some((acc + hs, i + render_items(hs).len() + 2)),
    decreases hs.len(),
{
    reveal_strlit(",\n");
    reveal_strlit("\n]");
    let h = hs[0];
    let rh = render_host(h);
    lemma_render_host_len(h);
    if hs.len() == 1 {
        assert(render_items(hs) == rh);
        lemma_parse_render_host(s, i, h);
        let j = i + rh.len();
        assert(s[j] == '\n');
        assert(s[j + 1] == ']');
        assert(s.subrange(j, j + 2) =~= "\n]"@);
        assert(match_lit(s, j, "\n]"@) == Some(j + 2));
        assert(acc.push(h) =~= acc + hs);
    } else {
        let rest = hs.drop_first();
        assert(render_items(hs) == (rh + ",\n"@) + render_items(rest));
        lemma_slice_split(s, i, rh + ",\n"@, render_items(rest));
        lemma_slice_split(s, i, rh, ",\n"@);
        lemma_parse_render_host(s, i, h);
        let j = i + rh.len();
        assert(s[j + 0] == ",\n"@[0]);
        assert(s[j] == ',');
        assert(s.subrange(j, j + 2) =~= ",\n"@);
        assert(match_lit(s, j, ",\n"@) == Some(j + 2));
        let k = j + 2;
        assert(k == i + (rh + ",\n"@).len());
        lemma_parse_render_items(s, k, acc.push(h), rest);
        assert(acc.push(h) + rest =~= acc + hs);
        assert(i + render_items(hs).len() == k + render_items(rest).len());
    }
}

/// Escaping text one character at a time agrees with escaping it whole.
pub proof fn lemma_esc_string_snoc(t: Seq<char>, c: char)
    ensures
        esc_string(t.push(c)) == esc_string(t) + esc_char(c),
    decreases t.len(),
{
    let p = t.push(c);
    if t.len() == 0 {
        assert(p[0] == c);
        assert(p.drop_first() =~= Seq::<char>::empty());
        assert(esc_string(p) == esc_char(c) + esc_string(Seq::<char>::empty()));
        assert(esc_char(c) + Seq::<char>::empty() =~= Seq::<char>::empty() + esc_char(c));
    } else {
        assert(p[0] == t[0]);
        assert(p.drop_first() =~= t.drop_first().push(c));
        lemma_esc_string_snoc(t.drop_first(), c);
        assert(esc_char(t[0]) + (esc_string(t.drop_first()) + esc_char(c)) =~= (esc_char(t[0])
            + esc_string(t.drop_first())) + esc_char(c));
    }
}

/// Rendering the items one record at a time agrees with rendering them whole.
pub proof fn lemma_render_items_snoc(hs: Seq<HostV>, h: HostV)
    ensures
        render_items(hs.push(h)) == if hs.len() == 0 {
            render_host(h)
        } else {
            render_items(hs) + ",\n"@ + render_host(h)
        },
    decreases hs.len(),
{
    let p = hs.push(h);
    if hs.len() == 0 {
        assert(p.len() == 1);
        assert(p[0] == h);
    } else {
        assert(p[0] == hs[0]);
        assert(p.drop_first() =~= hs.drop_first().push(h));
        lemma_render_items_snoc(hs.drop_first(), h);
        let rh0 = render_host(hs[0]);
        if hs.len() == 1 {
            assert(render_items(p) == rh0 + ",\n"@ + render_host(h));
        } else {
            let mid = render_items(hs.drop_first());
            assert(render_items(p) == (rh0 + ",\n"@) + ((mid + ",\n"@) + render_host(h)));
            assert((rh0 + ",\n"@) + ((mid + ",\n"@) + render_host(h)) =~= (((rh0 + ",\n"@) + mid)
                + ",\n"@) + render_host(h));
        }
    }
}

/// Round trip: a rendered registry always parses back to exactly the same
/// records, in the same order.
pub proof fn lemma_parse_render_hosts(hs: Seq<HostV>)
    ensures
        parse_hosts(render_hosts(hs)) == Some(hs),
{
    reveal_strlit("[]");
    reveal_strlit("[\n");
    reveal_strlit("\n]");
    if hs.len() == 0 {
        assert(render_hosts(hs) == "[]"@);
    } else {
        let s = render_hosts(hs);
        let items = render_items(hs);
        assert(s == ("[\n"@ + items) + "\n]"@);
        assert(s.len() == items.len() + 4);
        assert(s != "[]"@);
        assert(forall|k: int| 0 <= k < s.len() ==> s[0 + k] == (("[\n"@ + items) + "\n]"@)[k]);
        lemma_slice_split(s, 0, "[\n"@ + items, "\n]"@);
        lemma_slice_split(s, 0, "[\n"@, items);
        assert(s.subrange(0, 2) =~= "[\n"@);
        assert(match_lit(s, 0, "[\n"@) == Some(2int));
        assert(s[2 + items.len() as int + 0] == "\n]"@[0]);
        assert(s[2 + items.len() as int + 1] == "\n]"@[1]);
        lemma_parse_render_items(s, 2, Seq::empty(), hs);
        assert(Seq::empty() + hs =~= hs);
        assert(parse_items(s, 2, Seq::empty()) == Some((hs, s.len() as int)));
    }
}

} // verus!
