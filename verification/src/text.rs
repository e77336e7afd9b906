//! Text rules: durations "3:45" to milliseconds and back, and the clock.
use vstd::prelude::*;
use crate::chars::{
    all_digits, dec, digit_char, digits_value, is_digit, is_ws, lemma_split_nonempty, parse_digits, push_decimal, split, split_chars,
    string_of, trim, trim_start, trimmed,
};

verus! {

/// How reading the parts of a duration ends.
pub enum DurationFold {
    /// A part is empty, not digits, or too large to read.
    Invalid,
    /// The running total leaves `i64`.
    Overflow,
    Value(int),
}

/// Reads the parts left to right: `total * 60 + part`, stopping at the first bad part.
pub open spec fn fold_parts(parts: Seq<Seq<char>>) -> DurationFold
    decreases parts.len(),
{
    if parts.len() == 0 {
        DurationFold::Value(0)
    } else {
        match fold_parts(parts.drop_last()) {
            DurationFold::Value(t) => {
                let p = parts.last();
                if p.len() == 0 || !all_digits(p) {
                    DurationFold::Invalid
                } else if t * 60 > i64::MAX {
                    DurationFold::Overflow
                } else if digits_value(p) > i64::MAX {
                    DurationFold::Invalid
                } else if t * 60 + digits_value(p) > i64::MAX {
                    DurationFold::Overflow
                } else {
                    DurationFold::Value(t * 60 + digits_value(p))
                }
            },
            other => other,
        }
    }
}

/// "3:45" or "1:02:10" (after trimming) in milliseconds; `Overflow` where the count leaves `i64`.
pub open spec fn duration_of(text: Seq<char>) -> DurationFold {
    let parts = split(trim(text), ':');
    if !(2 <= parts.len() <= 3) {
        DurationFold::Invalid
    } else {
        match fold_parts(parts) {
            DurationFold::Value(t) => if t * 1000 > i64::MAX {
                DurationFold::Overflow
            } else {
                DurationFold::Value(t * 1000)
            },
            other => other,
        }
    }
}

/// Whether reading `text` as a duration would leave `i64`.
pub open spec fn duration_overflows(text: Option<&str>) -> bool {
    match text {
        Some(t) => duration_of(t@) is Overflow,
        None => false,
    }
}

/// "3:45", "1:02:10" to milliseconds; anything else is `None`.
pub fn parse_duration(text: Option<&str>) -> (r: Option<i64>)
    requires
        !duration_overflows(text),
    ensures
        match text {
            None => r is None,
            Some(t) => match duration_of(t@) {
                DurationFold::Value(v) => r == Some(v as i64),
                _ => r is None,
            },
        },
{
    let t = match text {
        Some(t) => t,
        None => return None,
    };
    let trimmed = trimmed(t);
    let parts = split_chars(&trimmed, ':');
    if parts.len() < 2 || parts.len() > 3 {
        return None;
    }
    let ghost all = split(trim(t@), ':');
    let mut total: i64 = 0;
    let mut i: usize = 0;
    while i < parts.len()
        invariant
            i <= parts.len(),
            2 <= parts@.len() <= 3,
            parts@.len() == all.len(),
            forall|k: int| 0 <= k < parts@.len() ==> #[trigger] parts@[k]@ == all[k],
            fold_parts(all.take(i as int)) == DurationFold::Value(total as int),
            total >= 0,
            !(duration_of(t@) is Overflow),
            all == split(trim(t@), ':'),
            text == Some(t),
        decreases parts.len() - i,
    {
        assert(all.take(i + 1).drop_last() =~= all.take(i as int));
        assert(all.take(i + 1).last() == parts@[i as int]@);
        let part = &parts[i];
        let mut k: usize = 0;
        let mut digits = part.len() > 0;
        while k < part.len()
            invariant
                k <= part.len(),
                digits ==> part@.len() > 0 && forall|j: int| 0 <= j < k ==> #[trigger] is_digit(part@[j]),
                !digits ==> part@.len() == 0 || !all_digits(part@),
            decreases part.len() - k,
        {
            if !('0' <= part[k] && part[k] <= '9') {
                assert(!is_digit(part@[k as int]));
                digits = false;
            }
            k = k + 1;
        }
        if !digits {
            proof {
                lemma_fold_stays_invalid(all, i as int + 1);
            }
            return None;
        }
        if total > i64::MAX / 60 {
            proof {
                lemma_fold_stays_overflow(all, i as int + 1);
            }
            return None;
        }
        let value = parse_digits(part);
        match value {
            None => {
                proof {
                    lemma_fold_stays_invalid(all, i as int + 1);
                }
                return None;
            },
            Some(v) => {
                if v > i64::MAX as u64 || total * 60 > i64::MAX - v as i64 {
                    proof {
                        if v > i64::MAX as u64 {
                            lemma_fold_stays_invalid(all, i as int + 1);
                        } else {
                            lemma_fold_stays_overflow(all, i as int + 1);
                        }
                    }
                    return None;
                }
                total = total * 60 + v as i64;
            },
        }
        i = i + 1;
    }
    assert(all.take(parts.len() as int) =~= all);
    if total > i64::MAX / 1000 {
        return None;
    }
    Some(total * 1000)
}

/// Whether reading `t` as a duration would leave `i64`: what `parse_duration` asks a caller to rule
/// out first.
pub fn duration_overflows_text(t: &str) -> (r: bool)
    ensures
        r == (duration_of(t@) is Overflow),
{
    let trimmed = trimmed(t);
    let parts = split_chars(&trimmed, ':');
    if parts.len() < 2 || parts.len() > 3 {
        return false;
    }
    let ghost all = split(trim(t@), ':');
    let mut total: i64 = 0;
    let mut i: usize = 0;
    while i < parts.len()
        invariant
            i <= parts.len(),
            2 <= parts@.len() <= 3,
            parts@.len() == all.len(),
            forall|k: int| 0 <= k < parts@.len() ==> #[trigger] parts@[k]@ == all[k],
            fold_parts(all.take(i as int)) == DurationFold::Value(total as int),
            total >= 0,
            all == split(trim(t@), ':'),
        decreases parts.len() - i,
    {
        assert(all.take(i + 1).drop_last() =~= all.take(i as int));
        assert(all.take(i + 1).last() == parts@[i as int]@);
        let part = &parts[i];
        let mut k: usize = 0;
        let mut digits = part.len() > 0;
        while k < part.len()
            invariant
                k <= part.len(),
                digits ==> part@.len() > 0 && forall|j: int| 0 <= j < k ==> #[trigger] is_digit(part@[j]),
                !digits ==> part@.len() == 0 || !all_digits(part@),
            decreases part.len() - k,
        {
            if !('0' <= part[k] && part[k] <= '9') {
                assert(!is_digit(part@[k as int]));
                digits = false;
            }
            k = k + 1;
        }
        if !digits {
            proof {
                lemma_fold_stays_invalid(all, i as int + 1);
            }
            return false;
        }
        if total > i64::MAX / 60 {
            proof {
                lemma_fold_stays_overflow(all, i as int + 1);
            }
            return true;
        }
        let value = parse_digits(part);
        match value {
            None => {
                proof {
                    lemma_fold_stays_invalid(all, i as int + 1);
                }
                return false;
            },
            Some(v) => {
                if v > i64::MAX as u64 || total * 60 > i64::MAX - v as i64 {
                    proof {
                        if v > i64::MAX as u64 {
                            lemma_fold_stays_invalid(all, i as int + 1);
                        } else {
                            lemma_fold_stays_overflow(all, i as int + 1);
                        }
                    }
                    return v <= i64::MAX as u64;
                }
                total = total * 60 + v as i64;
            },
        }
        i = i + 1;
    }
    assert(all.take(parts.len() as int) =~= all);
    total > i64::MAX / 1000
}

pub proof fn lemma_fold_stays_invalid(parts: Seq<Seq<char>>, n: int)
    requires
        0 <= n <= parts.len(),
        fold_parts(parts.take(n)) is Invalid,
    ensures
        fold_parts(parts) is Invalid,
    decreases parts.len() - n,
{
    if n < parts.len() {
        assert(parts.take(n + 1).drop_last() =~= parts.take(n));
        lemma_fold_stays_invalid(parts, n + 1);
    } else {
        assert(parts.take(n) =~= parts);
    }
}

pub proof fn lemma_fold_stays_overflow(parts: Seq<Seq<char>>, n: int)
    requires
        0 <= n <= parts.len(),
        fold_parts(parts.take(n)) is Overflow,
    ensures
        fold_parts(parts) is Overflow,
    decreases parts.len() - n,
{
    if n < parts.len() {
        assert(parts.take(n + 1).drop_last() =~= parts.take(n));
        lemma_fold_stays_overflow(parts, n + 1);
    } else {
        assert(parts.take(n) =~= parts);
    }
}

/// Two digits, with a leading zero below ten.
pub open spec fn dec2(n: nat) -> Seq<char> {
    if n < 10 { seq!['0'].add(dec(n)) } else { dec(n) }
}

/// What `format_duration` writes for `ms`.
pub open spec fn duration_text(ms: int) -> Seq<char> {
    let total = (if ms < 0 { 0 } else { ms }) / 1000;
    let hours = total / 3600;
    let minutes = total % 3600 / 60;
    let seconds = total % 60;
    if hours > 0 {
        dec(hours as nat) + seq![':'] + dec2(minutes as nat) + seq![':'] + dec2(seconds as nat)
    } else {
        dec(minutes as nat) + seq![':'] + dec2(seconds as nat)
    }
}

fn push_two_digits(v: &mut Vec<char>, n: u64)
    requires
        n < 100,
    ensures
        final(v)@ == old(v)@ + dec2(n as nat),
{
    if n < 10 {
        v.push('0');
    }
    push_decimal(v, n);
    assert(final(v)@ =~= old(v)@ + dec2(n as nat));
}

/// Milliseconds to "3:45" or "1:02:10"; negative counts as zero.
pub fn format_duration(ms: i64) -> (s: String)
    ensures
        s@ == duration_text(ms as int),
{
    let total: u64 = (if ms < 0 { 0 } else { ms as u64 }) / 1000;
    let hours: u64 = total / 3600;
    let minutes: u64 = total % 3600 / 60;
    let seconds: u64 = total % 60;
    let mut v: Vec<char> = Vec::new();
    if hours > 0 {
        push_decimal(&mut v, hours);
        v.push(':');
        push_two_digits(&mut v, minutes);
        v.push(':');
        push_two_digits(&mut v, seconds);
    } else {
        push_decimal(&mut v, minutes);
        v.push(':');
        push_two_digits(&mut v, seconds);
    }
    assert(v@ =~= duration_text(ms as int));
    string_of(&v)
}

/// Now, in Unix milliseconds (UTC); 0 where the clock is before 1970.
#[verifier::external_body]
pub fn now_ms() -> i64 {
    std::time::SystemTime::now().duration_since(std::time::UNIX_EPOCH).map(|d| d.as_millis() as i64).unwrap_or(0)
}


/// The decimal writing of a number is digits that read back as the number.
pub proof fn lemma_dec_reads_back(n: nat)
    ensures
        dec(n).len() > 0,
        all_digits(dec(n)),
        digits_value(dec(n)) == n,
    decreases n,
{
    if n >= 10 {
        lemma_dec_reads_back(n / 10);
        let d = dec(n / 10);
        let last = digit_char(n % 10);
        assert(dec(n) == d.push(last));
        assert(dec(n).drop_last() =~= d);
        assert(dec(n).last() == last);
        assert((last as nat) - ('0' as nat) == n % 10);
        assert(n / 10 * 10 + n % 10 == n);
        assert forall|i: int| 0 <= i < dec(n).len() implies #[trigger] is_digit(dec(n)[i]) by {
            if i < d.len() {
                assert(dec(n)[i] == d[i]);
            }
        }
    } else {
        assert(dec(n).drop_last() =~= Seq::<char>::empty());
        assert(dec(n).last() == digit_char(n));
        assert((digit_char(n) as nat) - ('0' as nat) == n);
        assert(digits_value(Seq::<char>::empty()) == 0);
    }
}

/// Two digits read back as their number.
pub proof fn lemma_dec2_reads_back(n: nat)
    requires
        n < 100,
    ensures
        dec2(n).len() > 0,
        all_digits(dec2(n)),
        digits_value(dec2(n)) == n,
{
    lemma_dec_reads_back(n);
    if n < 10 {
        let t = dec2(n);
        assert(t =~= seq!['0', digit_char(n)]);
        assert(t.drop_last() =~= seq!['0']);
        assert(t.last() == digit_char(n));
        assert(seq!['0'].drop_last() =~= Seq::<char>::empty());
        assert(seq!['0'].last() == '0');
        assert(digits_value(Seq::<char>::empty()) == 0);
        assert(digits_value(seq!['0']) == 0);
        assert((digit_char(n) as nat) - ('0' as nat) == n);
        assert(is_digit('0'));
        assert(is_digit(digit_char(n)));
        assert(all_digits(t));
    }
}

/// Splitting a text followed by a piece without the separator extends the text's last piece.
pub proof fn lemma_split_extend(s: Seq<char>, t: Seq<char>, sep: char)
    requires
        forall|i: int| 0 <= i < t.len() ==> #[trigger] t[i] != sep,
    ensures
        split(s + t, sep) == split(s, sep).update(split(s, sep).len() - 1, split(s, sep).last() + t),
    decreases t.len(),
{
    lemma_split_nonempty(s, sep);
    if t.len() == 0 {
        assert(s + t =~= s);
        assert(split(s, sep).last() + t =~= split(s, sep).last());
        assert(split(s, sep).update(split(s, sep).len() - 1, split(s, sep).last()) =~= split(s, sep));
    } else {
        let t0 = t.drop_last();
        lemma_split_extend(s, t0, sep);
        assert((s + t).drop_last() =~= s + t0);
        assert((s + t).last() == t.last());
        let p = split(s, sep);
        assert((p.last() + t0).push(t.last()) =~= p.last() + t);
        assert(split(s + t, sep) =~= p.update(p.len() - 1, p.last() + t));
    }
}

/// Digits hold no separator and no white space.
proof fn lemma_digits_plain(t: Seq<char>)
    requires
        all_digits(t),
    ensures
        forall|i: int| 0 <= i < t.len() ==> #[trigger] t[i] != ':',
        forall|i: int| 0 <= i < t.len() ==> !is_ws(#[trigger] t[i]),
{
    assert forall|i: int| 0 <= i < t.len() implies #[trigger] t[i] != ':' && !is_ws(t[i]) by {
        assert(is_digit(t[i]));
    }
}

/// Pieces of digits joined by ':' split back into those pieces.
proof fn lemma_split_parts(a: Seq<char>, b: Seq<char>)
    requires
        all_digits(a),
        all_digits(b),
    ensures
        split(a + seq![':'] + b, ':') == seq![a, b],
{
    lemma_digits_plain(a);
    lemma_digits_plain(b);
    lemma_split_extend(Seq::empty(), a, ':');
    assert(Seq::<char>::empty() + a =~= a);
    assert(split(Seq::<char>::empty(), ':').update(0, Seq::<char>::empty() + a) =~= seq![a]);
    let sa = a + seq![':'];
    assert(sa.drop_last() =~= a);
    assert(split(sa, ':') =~= seq![a, Seq::<char>::empty()]);
    lemma_split_extend(sa, b, ':');
    assert(seq![a, Seq::<char>::empty()].update(1, Seq::<char>::empty() + b) =~= seq![a, b]);
    assert(Seq::<char>::empty() + b =~= b);
}

proof fn lemma_split_three(a: Seq<char>, b: Seq<char>, c: Seq<char>)
    requires
        all_digits(a),
        all_digits(b),
        all_digits(c),
    ensures
        split(a + seq![':'] + b + seq![':'] + c, ':') == seq![a, b, c],
{
    lemma_split_parts(a, b);
    lemma_digits_plain(c);
    let s = a + seq![':'] + b + seq![':'];
    assert(s.drop_last() =~= a + seq![':'] + b);
    assert(split(s, ':') =~= seq![a, b, Seq::<char>::empty()]);
    lemma_split_extend(s, c, ':');
    assert(s + c =~= a + seq![':'] + b + seq![':'] + c);
    assert(seq![a, b, Seq::<char>::empty()].update(2, Seq::<char>::empty() + c) =~= seq![a, b, c]);
    assert(Seq::<char>::empty() + c =~= c);
}

/// A text that starts and ends with a digit has nothing to trim.
proof fn lemma_trim_digits_ends(t: Seq<char>)
    requires
        t.len() > 0,
        is_digit(t[0]),
        is_digit(t.last()),
    ensures
        trim(t) == t,
{
    assert(!is_ws(t[0]));
    assert(trim_start(t) == t);
    assert(!is_ws(t.last()));
}

/// What `format_duration` writes reads back, by `parse_duration`, as the same whole seconds.
pub proof fn law_format_then_parse(ms: int)
    requires
        0 <= ms <= i64::MAX,
    ensures
        duration_of(duration_text(ms)) == DurationFold::Value(ms / 1000 * 1000),
{
    let total = ms / 1000;
    let hours = total / 3600;
    let minutes = total % 3600 / 60;
    let seconds = total % 60;
    lemma_dec_reads_back(hours as nat);
    lemma_dec_reads_back(minutes as nat);
    lemma_dec2_reads_back(minutes as nat);
    lemma_dec2_reads_back(seconds as nat);
    assert(total <= 9223372036854775);
    let text = duration_text(ms);
    if hours > 0 {
        let a = dec(hours as nat);
        let b = dec2(minutes as nat);
        let c = dec2(seconds as nat);
        assert(text == a + seq![':'] + b + seq![':'] + c);
        lemma_split_three(a, b, c);
        assert(text[0] == a[0]);
        assert(text.last() == c.last());
        lemma_trim_digits_ends(text);
        let parts = seq![a, b, c];
        assert(parts.drop_last() =~= seq![a, b]);
        assert(seq![a, b].drop_last() =~= seq![a]);
        assert(seq![a].drop_last() =~= Seq::<Seq<char>>::empty());
        assert(hours * 60 + minutes <= total / 60) by (nonlinear_arith)
            requires
                hours == total / 3600,
                minutes == total % 3600 / 60,
                total >= 0,
        ;
        assert((hours * 60 + minutes) * 60 + seconds == total) by (nonlinear_arith)
            requires
                hours == total / 3600,
                minutes == total % 3600 / 60,
                seconds == total % 60,
                total >= 0,
        ;
        assert(hours <= total && minutes < 60 && seconds < 60);
        assert(seq![a].last() == a);
        assert(seq![a, b].last() == b);
        assert(parts.last() == c);
        assert(fold_parts(Seq::<Seq<char>>::empty()) == DurationFold::Value(0));
        assert(fold_parts(seq![a]) == DurationFold::Value(hours));
        assert(fold_parts(seq![a, b]) == DurationFold::Value(hours * 60 + minutes));
        assert(fold_parts(parts) == DurationFold::Value(total));
    } else {
        let b = dec(minutes as nat);
        let c = dec2(seconds as nat);
        assert(text == b + seq![':'] + c);
        lemma_split_parts(b, c);
        assert(text[0] == b[0]);
        assert(text.last() == c.last());
        lemma_trim_digits_ends(text);
        let parts = seq![b, c];
        assert(parts.drop_last() =~= seq![b]);
        assert(seq![b].drop_last() =~= Seq::<Seq<char>>::empty());
        assert(minutes * 60 + seconds == total) by (nonlinear_arith)
            requires
                total / 3600 == 0,
                minutes == total % 3600 / 60,
                seconds == total % 60,
                total >= 0,
        ;
        assert(minutes < 60 && seconds < 60);
        assert(seq![b].last() == b);
        assert(parts.last() == c);
        assert(fold_parts(Seq::<Seq<char>>::empty()) == DurationFold::Value(0));
        assert(fold_parts(seq![b]) == DurationFold::Value(minutes));
        assert(fold_parts(parts) == DurationFold::Value(total));
    }
}

/// The texts that `format_duration` writes: "m:ss" below an hour, else "h:mm:ss", with no
/// leading zero on the first part.
pub open spec fn canonical_duration(text: Seq<char>) -> bool {
    exists|ms: int| 0 <= ms <= i64::MAX && #[trigger] duration_text(ms) == text
}

/// Formatting undoes parsing on the texts that formatting writes.
pub proof fn law_parse_then_format(text: Seq<char>)
    requires
        canonical_duration(text),
    ensures
        duration_of(text) matches DurationFold::Value(v) && duration_text(v) == text,
{
    let ms = choose|ms: int| 0 <= ms <= i64::MAX && #[trigger] duration_text(ms) == text;
    law_format_then_parse(ms);
    let v = ms / 1000 * 1000;
    assert(v / 1000 == ms / 1000);
    assert(v >= 0);
}

} // verus!
