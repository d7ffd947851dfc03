use vstd::prelude::*;
use vstd::string::StrSliceExecFns;
use vstd::string::StringExecFns;

use crate::format::{
    dec_rep, digit_char, esc_string, hex_char, lemma_esc_string_snoc,
    lemma_render_items_snoc, render_host, render_hosts, render_items, render_jstring, render_opt,
};
use crate::host::{Host, hosts_view, opt_string_view};

verus! {

/// Relies on std's `String: FromIterator<char>`: collecting characters yields
/// the string of exactly those characters, in order.
#[verifier::external_body]
pub(crate) fn chars_to_string(v: &Vec<char>) -> (r: String)
    ensures
        r@ == v@,
{
    v.iter().collect()
}

fn push_str_chars(out: &mut Vec<char>, s: &str)
    ensures
        final(out)@ == old(out)@ + s@,
{
    let n = s.unicode_len();
    let mut j: usize = 0;
    while j < n
        invariant
            n == s@.len(),
            j <= n,
            out@ == old(out)@ + s@.subrange(0, j as int),
        decreases n - j,
    {
        let c = s.get_char(j);
        out.push(c);
        proof {
            assert(s@.subrange(0, (j + 1) as int) =~= s@.subrange(0, j as int).push(
                s@[j as int],
            ));
            assert(out@ =~= old(out)@ + s@.subrange(0, (j + 1) as int));
        }
        j += 1;
    }
    assert(s@.subrange(0, n as int) =~= s@);
}

fn hex_char_exec(n: u8) -> (c: char)
    requires
        n < 16,
    ensures
        c == hex_char(n as u64),
{
    if n < 10 {
        (n + 48) as char
    } else {
        (n + 87) as char
    }
}

fn push_escaped(out: &mut Vec<char>, s: &str)
    ensures
        final(out)@ == old(out)@ + esc_string(s@),
{
    let n = s.unicode_len();
    let mut j: usize = 0;
    assert(out@ =~= old(out)@ + esc_string(s@.subrange(0, 0)));
    while j < n
        invariant
            n == s@.len(),
            j <= n,
            out@ == old(out)@ + esc_string(s@.subrange(0, j as int)),
        decreases n - j,
    {
        let c = s.get_char(j);
        if c == '"' {
            out.push('\\');
            out.push('"');
        } else if c == '\\' {
            out.push('\\');
            out.push('\\');
        } else if (c as u32) < 32 {
            let v = c as u32;
            out.push('\\');
            out.push('u');
            out.push('0');
            out.push('0');
            out.push(hex_char_exec((v / 16) as u8));
            out.push(hex_char_exec((v % 16) as u8));
        } else {
            out.push(c);
        }
        proof {
            lemma_esc_string_snoc(s@.subrange(0, j as int), c);
            assert(s@.subrange(0, (j + 1) as int) =~= s@.subrange(0, j as int).push(
                s@[j as int],
            ));
            assert(out@ =~= old(out)@ + esc_string(s@.subrange(0, (j + 1) as int)));
        }
        j += 1;
    }
    assert(s@.subrange(0, n as int) =~= s@);
}

fn push_u64_dec(out: &mut Vec<char>, n: u64)
    ensures
        final(out)@ == old(out)@ + dec_rep(n),
    decreases n,
{
    if n >= 10 {
        push_u64_dec(out, n / 10);
    }
    let d = (n % 10) as u8;
    out.push((d + 48) as char);
    proof {
        assert((d + 48) as char == digit_char(n % 10));
        if n < 10 {
            assert(n % 10 == n);
            assert(out@ =~= old(out)@ + dec_rep(n));
        } else {
            assert(out@ =~= old(out)@ + (dec_rep(n / 10) + seq![digit_char(n % 10)]));
        }
    }
}

fn push_jstring(out: &mut Vec<char>, s: &str)
    ensures
        final(out)@ == old(out)@ + render_jstring(s@),
{
    out.push('"');
    push_escaped(out, s);
    out.push('"');
    assert(out@ =~= old(out)@ + render_jstring(s@));
}

fn push_opt(out: &mut Vec<char>, o: &Option<String>)
    ensures
        final(out)@ == old(out)@ + render_opt(opt_string_view(*o)),
{
    match o {
        None => {
            push_str_chars(out, "null");
        },
        Some(s) => {
            push_jstring(out, s.as_str());
        },
    }
}

fn push_host(out: &mut Vec<char>, h: &Host)
    ensures
        final(out)@ == old(out)@ + render_host(h@),
{
    push_str_chars(out, "  {\n    \"id\": ");
    push_u64_dec(out, h.id);
    push_str_chars(out, ",\n    \"name\": ");
    push_jstring(out, h.name.as_str());
    push_str_chars(out, ",\n    \"ip\": ");
    push_jstring(out, h.ip.as_str());
    push_str_chars(out, ",\n    \"protocol\": ");
    push_jstring(out, h.protocol.label());
    push_str_chars(out, ",\n    \"username\": ");
    push_opt(out, &h.username);
    push_str_chars(out, ",\n    \"password\": ");
    push_opt(out, &h.password);
    push_str_chars(out, "\n  }");
    assert(out@ =~= old(out)@ + render_host(h@));
}

/// Serialize the full registry to the exact text persisted on disk: a
/// pretty-printed array of host records.
pub fn hosts_to_json(hosts: &Vec<Host>) -> (r: String)
    ensures
        r@ == render_hosts(hosts_view(hosts@)),
{
    let ghost hv = hosts_view(hosts@);
    assert(hv.len() == hosts@.len());
    if hosts.len() == 0 {
        let r = String::from_str("[]");
        return r;
    }
    let mut out: Vec<char> = Vec::new();
    push_str_chars(&mut out, "[\n");
    assert(out@ =~= "[\n"@);
    let mut i: usize = 0;
    while i < hosts.len()
        invariant
            hv == hosts_view(hosts@),
            hv.len() == hosts@.len(),
            i <= hosts.len(),
            i == 0 ==> out@ == "[\n"@,
            i >= 1 ==> out@ == "[\n"@ + render_items(hv.subrange(0, i as int)),
        decreases hosts.len() - i,
    {
        if i > 0 {
            push_str_chars(&mut out, ",\n");
        }
        push_host(&mut out, &hosts[i]);
        proof {
            let pre = hv.subrange(0, i as int);
            assert(hv[i as int] == hosts@[i as int]@);
            lemma_render_items_snoc(pre, hv[i as int]);
            assert(hv.subrange(0, (i + 1) as int) =~= pre.push(hv[i as int]));
            if i == 0 {
                assert(out@ =~= "[\n"@ + render_items(hv.subrange(0, (i + 1) as int)));
            } else {
                assert(out@ =~= "[\n"@ + render_items(hv.subrange(0, (i + 1) as int)));
            }
        }
        i += 1;
    }
    push_str_chars(&mut out, "\n]");
    proof {
        assert(hv.subrange(0, hosts@.len() as int) =~= hv);
        assert(out@ =~= ("[\n"@ + render_items(hv)) + "\n]"@);
    }
    chars_to_string(&out)
}

} // verus!
