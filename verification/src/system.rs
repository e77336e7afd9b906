//! Facts about the system for the log, "Diagnostics" and `DeviceInput`: the os-release format and
//! the machine's model name. Reading the files is the caller's part.
use vstd::prelude::*;
use crate::chars::{chars_of, eq_ignore_ascii_case, eq_ignore_case, find_chars, find_sub, lit, replace_all, replace_chars, slice_chars, split, split_chars, string_of, strip_prefix, strip_suffix, trim, trim_chars, chars_eq};

verus! {

/// `str::split_once` at a character.
pub open spec fn split_once(s: Seq<char>, c: char) -> Option<(Seq<char>, Seq<char>)> {
    match find_sub(s, seq![c]) {
        Some(i) => Some((s.take(i), s.skip(i + 1))),
        None => None,
    }
}

/// `v` without one pair of surrounding quotes of the same kind (`"` first, then `'`).
pub open spec fn unquote(v: Seq<char>) -> Seq<char> {
    let double = match strip_prefix(v, seq!['"']) {
        Some(a) => strip_suffix(a, seq!['"']),
        None => None,
    };
    match double {
        Some(b) => b,
        None => {
            let single = match strip_prefix(v, seq!['\'']) {
                Some(a) => strip_suffix(a, seq!['\'']),
                None => None,
            };
            match single {
                Some(b) => b,
                None => v,
            }
        },
    }
}

/// The value of `key` on one os-release line: `KEY=value`, `KEY="value"` or `KEY='value'`, with
/// `\"` and `\\` unescaped; `None` for another key or an empty value.
pub open spec fn os_release_value(line: Seq<char>, key: Seq<char>) -> Option<Seq<char>> {
    match split_once(trim(line), '=') {
        None => None,
        Some((name, value)) => if name != key {
            None
        } else {
            let u = replace_all(replace_all(unquote(trim(value)), seq!['\\', '"'], seq!['"']), seq!['\\', '\\'], seq!['\\']);
            if u.len() == 0 { None } else { Some(u) }
        },
    }
}

/// The value of `key` on the first line that has one.
pub open spec fn first_value(lines: Seq<Seq<char>>, key: Seq<char>) -> Option<Seq<char>>
    decreases lines.len(),
{
    if lines.len() == 0 {
        None
    } else {
        match os_release_value(lines[0], key) {
            Some(v) => Some(v),
            None => first_value(lines.drop_first(), key),
        }
    }
}

fn split_once_chars(s: &Vec<char>, c: char) -> (r: Option<(Vec<char>, Vec<char>)>)
    ensures
        match r {
            Some((a, b)) => split_once(s@, c) == Some((a@, b@)),
            None => split_once(s@, c) is None,
        },
{
    let sep = vec![c];
    assert(sep@ =~= seq![c]);
    match find_chars(s, &sep) {
        Some(i) => {
            assert(sep@.len() == 1);
            let n = s.len();
            assert(i + 1 <= n);
            let a = slice_chars(s, 0, i);
            let b = slice_chars(s, i + 1, n);
            assert(a@ =~= s@.take(i as int));
            assert(b@ =~= s@.skip(i + 1));
            Some((a, b))
        },
        None => None,
    }
}

fn strip_both(v: &Vec<char>, q: char) -> (r: Option<Vec<char>>)
    ensures
        match r {
            Some(b) => (match strip_prefix(v@, seq![q]) {
                Some(a) => strip_suffix(a, seq![q]),
                None => None,
            }) == Some(b@),
            None => (match strip_prefix(v@, seq![q]) {
                Some(a) => strip_suffix(a, seq![q]),
                None => None,
            }) is None,
        },
{
    if v.len() >= 1 && v[0] == q {
        assert(v@.subrange(0, 1) =~= seq![q]);
        let a = slice_chars(v, 1, v.len());
        assert(a@ =~= v@.skip(1));
        if a.len() >= 1 && a[a.len() - 1] == q {
            assert(a@.subrange(a@.len() - 1, a@.len() as int) =~= seq![q]);
            let b = slice_chars(&a, 0, a.len() - 1);
            assert(b@ =~= a@.take(a@.len() - 1));
            Some(b)
        } else {
            proof {
                if a@.len() >= 1 {
                    assert(a@.subrange(a@.len() - 1, a@.len() as int)[0] == a@[a@.len() - 1]);
                }
            }
            None
        }
    } else {
        proof {
            if v@.len() >= 1 {
                assert(v@.subrange(0, 1)[0] == v@[0]);
            }
        }
        None
    }
}

fn value_on_line(line: &Vec<char>, key: &Vec<char>) -> (r: Option<Vec<char>>)
    ensures
        match r {
            Some(v) => os_release_value(line@, key@) == Some(v@),
            None => os_release_value(line@, key@) is None,
        },
{
    let t = trim_chars(line);
    let (name, value) = match split_once_chars(&t, '=') {
        Some(p) => p,
        None => return None,
    };
    if !chars_eq(&name, key) {
        return None;
    }
    let value = trim_chars(&value);
    let unquoted = match strip_both(&value, '"') {
        Some(b) => b,
        None => match strip_both(&value, '\'') {
            Some(b) => b,
            None => value,
        },
    };
    let esc_quote = vec!['\\', '"'];
    let quote = vec!['"'];
    let esc_slash = vec!['\\', '\\'];
    let slash = vec!['\\'];
    assert(esc_quote@ =~= seq!['\\', '"']);
    assert(quote@ =~= seq!['"']);
    assert(esc_slash@ =~= seq!['\\', '\\']);
    assert(slash@ =~= seq!['\\']);
    let u = replace_chars(&replace_chars(&unquoted, &esc_quote, &quote), &esc_slash, &slash);
    if u.len() == 0 {
        None
    } else {
        Some(u)
    }
}

/// The value of an os-release field: `KEY=value`, `KEY="value"` or `KEY='value'`.
pub fn parse_os_release(text: &str, key: &str) -> (r: Option<String>)
    ensures
        match r {
            Some(v) => first_value(split(text@, '\n'), key@) == Some(v@),
            None => first_value(split(text@, '\n'), key@) is None,
        },
{
    let t = chars_of(text);
    let k = chars_of(key);
    let lines = split_chars(&t, '\n');
    let ghost all = split(text@, '\n');
    let mut i: usize = 0;
    assert(all.skip(0) =~= all);
    while i < lines.len()
        invariant
            i <= lines@.len(),
            lines@.len() == all.len(),
            forall|j: int| 0 <= j < lines@.len() ==> #[trigger] lines@[j]@ == all[j],
            first_value(all, key@) == first_value(all.skip(i as int), key@),
            all == split(text@, '\n'),
            k@ == key@,
        decreases lines.len() - i,
    {
        assert(all.skip(i as int)[0] == all[i as int]);
        assert(all.skip(i as int).drop_first() =~= all.skip(i + 1));
        match value_on_line(&lines[i], &k) {
            Some(v) => {
                assert(lines@[i as int]@ == all[i as int]);
                assert(first_value(all.skip(i as int), key@) == Some(v@));
                return Some(string_of(&v));
            },
            None => {},
        }
        i = i + 1;
    }
    None
}

/// A vendor's placeholder where the model name should be.
pub open spec fn is_placeholder(name: Seq<char>) -> bool {
    ||| eq_ignore_case(name, "System Product Name"@)
    ||| eq_ignore_case(name, "To be filled by O.E.M."@)
    ||| eq_ignore_case(name, "Default string"@)
    ||| eq_ignore_case(name, "None"@)
}

/// The computer's model from the DMI `product_name` text (`None` where it could not be read),
/// unless it is empty or a vendor's placeholder.
pub fn product_name(dmi_text: Option<&str>) -> (r: Option<String>)
    ensures
        match dmi_text {
            None => r is None,
            Some(t) => {
                let name = trim(t@);
                if name.len() == 0 || is_placeholder(name) {
                    r is None
                } else {
                    r matches Some(s) && s@ == name
                }
            },
        },
{
    let text = match dmi_text {
        Some(t) => t,
        None => return None,
    };
    let name = trim_chars(&chars_of(text));
    if name.len() == 0 {
        return None;
    }
    if eq_ignore_ascii_case(&name, &lit("System Product Name")) || eq_ignore_ascii_case(&name, &lit("To be filled by O.E.M."))
        || eq_ignore_ascii_case(&name, &lit("Default string")) || eq_ignore_ascii_case(&name, &lit("None")) {
        return None;
    }
    Some(string_of(&name))
}


/// A file's text, trimmed, where it holds some.
pub open spec fn trimmed_text(text: Option<Seq<char>>) -> Option<Seq<char>> {
    match text {
        Some(t) => if trim(t).len() > 0 { Some(trim(t)) } else { None },
        None => None,
    }
}

/// The system's name: `PRETTY_NAME` of the first os-release file that could be read
/// (`/etc/os-release`, then `/usr/lib/os-release`), else `Linux`.
pub open spec fn os_pretty_name_of(etc: Option<Seq<char>>, usr_lib: Option<Seq<char>>) -> Seq<char> {
    let text = if etc is Some { etc } else { usr_lib };
    match text {
        Some(t) => match first_value(split(t, '\n'), "PRETTY_NAME"@) {
            Some(v) => v,
            None => "Linux"@,
        },
        None => "Linux"@,
    }
}

/// The system's name from the texts of `/etc/os-release` and `/usr/lib/os-release` (`None` where
/// a file could not be read).
pub fn os_pretty_name(etc: Option<&str>, usr_lib: Option<&str>) -> (r: String)
    ensures
        r@ == os_pretty_name_of(match etc {
            Some(t) => Some(t@),
            None => None,
        }, match usr_lib {
            Some(t) => Some(t@),
            None => None,
        }),
{
    let text = if etc.is_some() { etc } else { usr_lib };
    match text {
        Some(t) => match parse_os_release(t, "PRETTY_NAME") {
            Some(v) => v,
            None => string_of(&lit("Linux")),
        },
        None => string_of(&lit("Linux")),
    }
}

/// The computer's name: the pretty one of `/etc/machine-info` (`hostnamectl` writes it), else the
/// host name of `/etc/hostname`, else the kernel's, else `Linux`.
pub open spec fn device_name_of(machine_info: Option<Seq<char>>, hostname: Option<Seq<char>>, kernel_hostname: Option<Seq<char>>) -> Seq<char> {
    let pretty = match machine_info {
        Some(t) => first_value(split(t, '\n'), "PRETTY_HOSTNAME"@),
        None => None,
    };
    match pretty {
        Some(p) => p,
        None => match trimmed_text(hostname) {
            Some(h) => h,
            None => match trimmed_text(kernel_hostname) {
                Some(k) => k,
                None => "Linux"@,
            },
        },
    }
}

fn trimmed_of(text: Option<&str>) -> (r: Option<String>)
    ensures
        r.deep_view() == trimmed_text(match text {
            Some(t) => Some(t@),
            None => None,
        }),
{
    match text {
        Some(t) => {
            let v = trim_chars(&chars_of(t));
            if v.len() > 0 { Some(string_of(&v)) } else { None }
        },
        None => None,
    }
}

/// The computer's name from the texts of `/etc/machine-info`, `/etc/hostname` and
/// `/proc/sys/kernel/hostname` (`None` where a file could not be read).
pub fn device_name(machine_info: Option<&str>, hostname: Option<&str>, kernel_hostname: Option<&str>) -> (r: String)
    ensures
        r@ == device_name_of(match machine_info {
            Some(t) => Some(t@),
            None => None,
        }, match hostname {
            Some(t) => Some(t@),
            None => None,
        }, match kernel_hostname {
            Some(t) => Some(t@),
            None => None,
        }),
{
    let pretty = match machine_info {
        Some(t) => parse_os_release(t, "PRETTY_HOSTNAME"),
        None => None,
    };
    match pretty {
        Some(p) => p,
        None => match trimmed_of(hostname) {
            Some(h) => h,
            None => match trimmed_of(kernel_hostname) {
                Some(k) => k,
                None => string_of(&lit("Linux")),
            },
        },
    }
}

} // verus!
