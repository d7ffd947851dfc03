use vstd::prelude::*;
use vstd::string::StrSliceExecFns;

use crate::format::{
    hex_val, is_digit, is_hex_lower, match_lit, parse_digits, parse_host, parse_hosts,
    parse_items, parse_jstring, parse_opt, parse_string_body, parse_u64, protocol_of,
};
use crate::host::{Host, HostProtocol, HostV, hosts_view, opt_string_view};
use crate::render::chars_to_string;

verus! {

fn str_chars(s: &str) -> (r: Vec<char>)
    ensures
        r@ == s@,
{
    let n = s.unicode_len();
    let mut r: Vec<char> = Vec::new();
    let mut j: usize = 0;
    while j < n
        invariant
            n == s@.len(),
            j <= n,
            r@ == s@.subrange(0, j as int),
        decreases n - j,
    {
        r.push(s.get_char(j));
        proof {
            assert(s@.subrange(0, (j + 1) as int) =~= s@.subrange(0, j as int).push(
                s@[j as int],
            ));
        }
        j += 1;
    }
    assert(s@.subrange(0, n as int) =~= s@);
    r
}

fn match_lit_at(v: &Vec<char>, i: usize, lit: &str) -> (r: Option<usize>)
    ensures
        match r {
            Some(j) => match_lit(v@, i as int, lit@) == Some(j as int) && i <= j <= v@.len(),
            None => match_lit(v@, i as int, lit@) is None,
        },
{
    let n = lit.unicode_len();
    if i > v.len() || n > v.len() - i {
        return None;
    }
    let mut j: usize = 0;
    while j < n
        invariant
            n == lit@.len(),
            i + n <= v@.len(),
            v@.len() <= usize::MAX,
            j <= n,
            forall|k: int| 0 <= k < j ==> v@[i + k] == lit@[k],
        decreases n - j,
    {
        if v[i + j] != lit.get_char(j) {
            proof {
                let sub = v@.subrange(i as int, i as int + lit@.len());
                assert(sub[j as int] == v@[i + j]);
                assert(sub != lit@);
            }
            return None;
        }
        j += 1;
    }
    proof {
        assert(v@.subrange(i as int, i as int + lit@.len()) =~= lit@);
    }
    Some(i + n)
}

fn is_digit_exec(c: char) -> (r: bool)
    ensures
        r == is_digit(c),
{
    let u = c as u32;
    48 <= u && u <= 57
}

fn is_hex_lower_exec(c: char) -> (r: bool)
    ensures
        r == is_hex_lower(c),
{
    let u = c as u32;
    (48 <= u && u <= 57) || (97 <= u && u <= 102)
}

fn parse_u64_at(v: &Vec<char>, i: usize) -> (r: Option<(u64, usize)>)
    ensures
        match r {
            Some(p) => parse_u64(v@, i as int) == Some((p.0, p.1 as int)) && i <= p.1 <= v@.len(),
            None => parse_u64(v@, i as int) is None,
        },
{
    if !(i < v.len() && is_digit_exec(v[i])) {
        return None;
    }
    let mut acc: u64 = 0;
    let mut j: usize = i;
    while j < v.len() && is_digit_exec(v[j])
        invariant
            i <= j <= v@.len(),
            parse_digits(v@, i as int, 0) == parse_digits(v@, j as int, acc),
        decreases v@.len() - j,
    {
        let d = (v[j] as u32 - 48) as u64;
        match acc.checked_mul(10) {
            None => {
                return None;
            },
            Some(x) => match x.checked_add(d) {
                None => {
                    return None;
                },
                Some(y) => {
                    acc = y;
                },
            },
        }
        j += 1;
    }
    Some((acc, j))
}

fn parse_jstring_at(v: &Vec<char>, i: usize) -> (r: Option<(String, usize)>)
    ensures
        match r {
            Some(p) => parse_jstring(v@, i as int) == Some((p.0@, p.1 as int)) && i <= p.1
                <= v@.len(),
            None => parse_jstring(v@, i as int) is None,
        },
{
    if !(i < v.len() && v[i] == '"') {
        return None;
    }
    let mut acc: Vec<char> = Vec::new();
    let mut j: usize = i + 1;
    loop
        invariant
            i < j <= v@.len(),
            parse_string_body(v@, (i + 1) as int, Seq::<char>::empty()) == parse_string_body(
                v@,
                j as int,
                acc@,
            ),
            v@[i as int] == '"',
        decreases v@.len() - j,
    {
        if j >= v.len() {
            return None;
        }
        let c = v[j];
        if c == '"' {
            let s = chars_to_string(&acc);
            return Some((s, j + 1));
        }
        if c == '\\' {
            if v.len() - j >= 2 && (v[j + 1] == '"' || v[j + 1] == '\\') {
                acc.push(v[j + 1]);
                j += 2;
            } else if v.len() - j >= 6 && v[j + 1] == 'u' && v[j + 2] == '0' && v[j + 3] == '0'
                && is_hex_lower_exec(v[j + 4]) && is_hex_lower_exec(v[j + 5]) {
                let h1 = hex_val_exec(v[j + 4]);
                let h2 = hex_val_exec(v[j + 5]);
                acc.push(((h1 * 16 + h2) as u8) as char);
                j += 6;
            } else {
                return None;
            }
        } else {
            acc.push(c);
            j += 1;
        }
    }
}

fn hex_val_exec(c: char) -> (n: u64)
    requires
        is_hex_lower(c),
    ensures
        n == hex_val(c),
        n < 16,
{
    let u = c as u32;
    if u <= 57 {
        (u - 48) as u64
    } else {
        (u - 87) as u64
    }
}

fn parse_opt_at(v: &Vec<char>, i: usize) -> (r: Option<(Option<String>, usize)>)
    ensures
        match r {
            Some(p) => parse_opt(v@, i as int) == Some((opt_string_view(p.0), p.1 as int)) && i
                <= p.1 <= v@.len(),
            None => parse_opt(v@, i as int) is None,
        },
{
    if i < v.len() && v[i] == 'n' {
        match match_lit_at(v, i, "null") {
            None => None,
            Some(j) => Some((None, j)),
        }
    } else {
        match parse_jstring_at(v, i) {
            None => None,
            Some((t, j)) => Some((Some(t), j)),
        }
    }
}

fn str_eq_lit(s: &str, lit: &str) -> (r: bool)
    ensures
        r == (s@ == lit@),
{
    let n = s.unicode_len();
    let m = lit.unicode_len();
    if n != m {
        return false;
    }
    let mut j: usize = 0;
    while j < n
        invariant
            n == s@.len(),
            n == lit@.len(),
            j <= n,
            forall|k: int| 0 <= k < j ==> s@[k] == lit@[k],
        decreases n - j,
    {
        if s.get_char(j) != lit.get_char(j) {
            return false;
        }
        j += 1;
    }
    proof {
        assert(s@ =~= lit@);
    }
    true
}

fn protocol_from_label(label: &str) -> (r: Option<HostProtocol>)
    ensures
        r == protocol_of(label@),
{
    if str_eq_lit(label, "VNC") {
        Some(HostProtocol::VNC)
    } else if str_eq_lit(label, "HTTP") {
        Some(HostProtocol::HTTP)
    } else if str_eq_lit(label, "HTTPS") {
        Some(HostProtocol::HTTPS)
    } else if str_eq_lit(label, "SSH") {
        Some(HostProtocol::SSH)
    } else {
        None
    }
}

fn parse_host_at(v: &Vec<char>, i: usize) -> (r: Option<(Host, usize)>)
    ensures
        match r {
            Some(p) => parse_host(v@, i as int) == Some((p.0@, p.1 as int)) && i <= p.1
                <= v@.len(),
            None => parse_host(v@, i as int) is None,
        },
{
    let i1 = match match_lit_at(v, i, "  {\n    \"id\": ") {
        None => {
            return None;
        },
        Some(j) => j,
    };
    let (id, i2) = match parse_u64_at(v, i1) {
        None => {
            return None;
        },
        Some(p) => p,
    };
    let i3 = match match_lit_at(v, i2, ",\n    \"name\": ") {
        None => {
            return None;
        },
        Some(j) => j,
    };
    let (name, i4) = match parse_jstring_at(v, i3) {
        None => {
            return None;
        },
        Some(p) => p,
    };
    let i5 = match match_lit_at(v, i4, ",\n    \"ip\": ") {
        None => {
            return None;
        },
        Some(j) => j,
    };
    let (ip, i6) = match parse_jstring_at(v, i5) {
        None => {
            return None;
        },
        Some(p) => p,
    };
    let i7 = match match_lit_at(v, i6, ",\n    \"protocol\": ") {
        None => {
            return None;
        },
        Some(j) => j,
    };
    let (label, i8) = match parse_jstring_at(v, i7) {
        None => {
            return None;
        },
        Some(p) => p,
    };
    let protocol = match protocol_from_label(label.as_str()) {
        None => {
            return None;
        },
        Some(p) => p,
    };
    let i9 = match match_lit_at(v, i8, ",\n    \"username\": ") {
        None => {
            return None;
        },
        Some(j) => j,
    };
    let (username, i10) = match parse_opt_at(v, i9) {
        None => {
            return None;
        },
        Some(p) => p,
    };
    let i11 = match match_lit_at(v, i10, ",\n    \"password\": ") {
        None => {
            return None;
        },
        Some(j) => j,
    };
    let (password, i12) = match parse_opt_at(v, i11) {
        None => {
            return None;
        },
        Some(p) => p,
    };
    let i13 = match match_lit_at(v, i12, "\n  }") {
        None => {
            return None;
        },
        Some(j) => j,
    };
    let h = Host { id, name, ip, protocol, username, password };
    proof {
        assert(h@ =~= HostV {
            id: id,
            name: name@,
            ip: ip@,
            protocol: protocol,
            username: opt_string_view(username),
            password: opt_string_view(password),
        });
    }
    Some((h, i13))
}

fn parse_items_at(v: &Vec<char>, i0: usize) -> (r: Option<(Vec<Host>, usize)>)
    requires
        i0 <= v@.len(),
    ensures
        match r {
            Some(p) => parse_items(v@, i0 as int, Seq::<HostV>::empty()) == Some(
                (hosts_view(p.0@), p.1 as int),
            ) && p.1 <= v@.len(),
            None => parse_items(v@, i0 as int, Seq::<HostV>::empty()) is None,
        },
{
    let mut acc: Vec<Host> = Vec::new();
    let mut i = i0;
    proof {
        assert(hosts_view(acc@) =~= Seq::<HostV>::empty());
    }
    loop
        invariant
            i <= v@.len(),
            parse_items(v@, i0 as int, Seq::<HostV>::empty()) == parse_items(
                v@,
                i as int,
                hosts_view(acc@),
            ),
        decreases v@.len() - i,
    {
        let (h, j) = match parse_host_at(v, i) {
            None => {
                return None;
            },
            Some(p) => p,
        };
        if !(i < j && j < v.len()) {
            return None;
        }
        if v[j] == ',' {
            let k = match match_lit_at(v, j, ",\n") {
                None => {
                    return None;
                },
                Some(k) => k,
            };
            proof {
                assert(hosts_view(acc@.push(h)) =~= hosts_view(acc@).push(h@));
            }
            acc.push(h);
            i = k;
        } else {
            let k = match match_lit_at(v, j, "\n]") {
                None => {
                    return None;
                },
                Some(k) => k,
            };
            proof {
                assert(hosts_view(acc@.push(h)) =~= hosts_view(acc@).push(h@));
            }
            acc.push(h);
            return Some((acc, k));
        }
    }
}

/// Deserialize registry text: `Some` with the records exactly when the text
/// is a well-formed registry file, `None` on any malformed text.
pub fn hosts_from_json(s: &str) -> (r: Option<Vec<Host>>)
    ensures
        match r {
            Some(hs) => parse_hosts(s@) == Some(hosts_view(hs@)),
            None => parse_hosts(s@) is None,
        },
{
    let v = str_chars(s);
    proof {
        reveal_strlit("[]");
    }
    if v.len() == 2 {
        match match_lit_at(&v, 0, "[]") {
            Some(_) => {
                proof {
                    assert(v@.subrange(0, 2) =~= v@);
                    assert(s@ == "[]"@);
                }
                let r: Vec<Host> = Vec::new();
                assert(hosts_view(r@) =~= Seq::<HostV>::empty());
                return Some(r);
            },
            None => {
                proof {
                    assert(v@.subrange(0, 2) =~= v@);
                    assert(s@ != "[]"@);
                }
            },
        }
    } else {
        proof {
            assert(s@ != "[]"@);
        }
    }
    assert(s@ != "[]"@);
    let i = match match_lit_at(&v, 0, "[\n") {
        None => {
            return None;
        },
        Some(i) => i,
    };
    let (hs, j) = match parse_items_at(&v, i) {
        None => {
            return None;
        },
        Some(p) => p,
    };
    if j == v.len() {
        Some(hs)
    } else {
        None
    }
}

} // verus!
