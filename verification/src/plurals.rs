//! Plural forms for strings keyed `Key_one/few/many/other`.
use vstd::prelude::*;

verus! {

#[derive(Clone, Copy, Debug, PartialEq, Eq, Structural)]
pub enum PluralForm {
    One,
    Few,
    Many,
    Other,
}

impl PluralForm {
    /// The suffix of the string key for this form.
    pub fn suffix(self) -> (s: &'static str)
        ensures
            s@ == match self {
                PluralForm::One => "one"@,
                PluralForm::Few => "few"@,
                PluralForm::Many => "many"@,
                PluralForm::Other => "other"@,
            },
    {
        match self {
            PluralForm::One => "one",
            PluralForm::Few => "few",
            PluralForm::Many => "many",
            PluralForm::Other => "other",
        }
    }
}

/// The plural form of `n` (the absolute value of the count).
pub open spec fn spec_form(n: int, russian: bool) -> PluralForm {
    if !russian {
        if n == 1 { PluralForm::One } else { PluralForm::Other }
    } else if n % 10 == 1 && n % 100 != 11 {
        PluralForm::One
    } else if 2 <= n % 10 <= 4 && !(12 <= n % 100 <= 14) {
        PluralForm::Few
    } else {
        PluralForm::Many
    }
}

pub open spec fn abs(count: int) -> int {
    if count < 0 { -count } else { count }
}

/// Russian: one (1, 21), few (2–4, 22–24), many (5–20, 25…); English: one (1) and other.
pub fn form(count: i64, russian: bool) -> (f: PluralForm)
    ensures
        f == spec_form(abs(count as int), russian),
{
    let n: u64 = if count < 0 { (0i128 - count as i128) as u64 } else { count as u64 };
    if !russian {
        return if n == 1 { PluralForm::One } else { PluralForm::Other };
    }
    let n10 = n % 10;
    let n100 = n % 100;
    if n10 == 1 && n100 != 11 {
        PluralForm::One
    } else if 2 <= n10 && n10 <= 4 && !(12 <= n100 && n100 <= 14) {
        PluralForm::Few
    } else {
        PluralForm::Many
    }
}

} // verus!
