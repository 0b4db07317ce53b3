//! The text forms of entries and error codes.

use vstd::prelude::*;

use crate::text::push_char;
use crate::{ErrorCode, FsEntry, FsEntryType, FsEntryView};

verus! {

/// The character of a decimal digit.
pub open spec fn digit_char(d: nat) -> char {
    ((48 + d) as u32) as char
}

/// The decimal digits of `n`, most significant first, without leading zeros.
pub open spec fn digits(n: nat) -> Seq<char>
    decreases n,
{
    if n < 10 {
        seq![digit_char(n)]
    } else {
        digits(n / 10).push(digit_char(n % 10))
    }
}

/// The decimal text of an integer, with a leading `-` when it is negative.
pub open spec fn decimal(n: int) -> Seq<char> {
    if n < 0 {
        seq!['-'] + digits((-n) as nat)
    } else {
        digits(n as nat)
    }
}

/// Appends the decimal digits of `m`.
fn push_digits(s: &mut String, m: u64)
    ensures
        final(s)@ == old(s)@ + digits(m as nat),
    decreases m,
{
    if m >= 10 {
        push_digits(s, m / 10);
    }
    let d: u8 = (m % 10) as u8;
    push_char(s, (48u8 + d) as char);
    proof {
        assert(((48 + d) as u32) as char == (48u8 + d) as char);
    }
    assert(final(s)@ =~= old(s)@ + digits(m as nat));
}

/// The decimal text of `n`.
pub fn decimal_string(n: i32) -> (s: String)
    ensures
        s@ == decimal(n as int),
{
    let mut s = String::new();
    let m: u64 = if n < 0 {
        push_char(&mut s, '-');
        (-(n as i64)) as u64
    } else {
        n as u64
    };
    push_digits(&mut s, m);
    assert(s@ =~= decimal(n as int));
    s
}

/// The text of an error code: the variant's name and its number in brackets.
pub open spec fn error_code_text(c: ErrorCode) -> Seq<char> {
    match c {
        ErrorCode::Session(n) => "Session("@ + decimal(n as int) + ")"@,
        ErrorCode::SFTP(n) => "SFTP("@ + decimal(n as int) + ")"@,
    }
}

/// The name of an entry type.
pub open spec fn entry_type_text(t: FsEntryType) -> Seq<char> {
    match t {
        FsEntryType::File => "File"@,
        FsEntryType::Directory => "Directory"@,
    }
}

/// The text of a boolean.
pub open spec fn bool_text(b: bool) -> Seq<char> {
    if b {
        "true"@
    } else {
        "false"@
    }
}

/// The text of an entry: `(path, type, is_link)`.
pub open spec fn entry_text(e: FsEntryView) -> Seq<char> {
    "("@ + e.path + ", "@ + entry_type_text(e.file_type) + ", "@ + bool_text(e.is_link) + ")"@
}

impl ErrorCode {
    /// The text of this code, such as `Session(-34)`.
    pub fn to_string(&self) -> (s: String)
        ensures
            s@ == error_code_text(*self),
    {
        let (mut s, n) = match self {
            ErrorCode::Session(n) => ("Session(".to_owned(), *n),
            ErrorCode::SFTP(n) => ("SFTP(".to_owned(), *n),
        };
        let digits = decimal_string(n);
        s.append(digits.as_str());
        s.append(")");
        s
    }
}

impl FsEntry {
    /// The text of this entry, such as `(/srv/a.txt, File, false)`.
    pub fn to_string(&self) -> (s: String)
        ensures
            s@ == entry_text(self@),
    {
        let mut s = "(".to_owned();
        s.append(self.path.as_str());
        s.append(", ");
        match self.file_type {
            FsEntryType::File => s.append("File"),
            FsEntryType::Directory => s.append("Directory"),
        }
        s.append(", ");
        if self.is_link {
            s.append("true");
        } else {
            s.append("false");
        }
        s.append(")");
        s
    }
}

/// The number that a text of decimal digits stands for.
pub open spec fn decimal_value(s: Seq<char>) -> int
    decreases s.len(),
{
    if s.len() == 0 {
        0
    } else {
        decimal_value(s.drop_last()) * 10 + (s.last() as int - 48)
    }
}

/// The digits of a number are decimal digits, without a leading zero unless the
/// number is zero, and they stand for the number.
pub proof fn law_digits_stand_for_the_number(n: nat)
    ensures
        digits(n).len() >= 1,
        forall|i: int| 0 <= i < digits(n).len() ==> '0' <= #[trigger] digits(n)[i] <= '9',
        digits(n)[0] != '0' || n == 0,
        decimal_value(digits(n)) == n,
    decreases n,
{
    assert(digit_char(n % 10) as int == 48 + n % 10);
    if n >= 10 {
        law_digits_stand_for_the_number(n / 10);
        let d = digits(n);
        assert(d.drop_last() =~= digits(n / 10));
        assert(n == (n / 10) * 10 + n % 10);
        assert forall|i: int| 0 <= i < d.len() implies '0' <= #[trigger] d[i] <= '9' by {
            if i < d.len() - 1 {
                assert(d[i] == digits(n / 10)[i]);
            }
        }
        assert(d.last() == digit_char(n % 10));
        assert(decimal_value(d) == decimal_value(digits(n / 10)) * 10 + (d.last() as int - 48));
    } else {
        let d = digits(n);
        assert(d.drop_last() =~= Seq::<char>::empty());
        assert(n % 10 == n);
        assert(decimal_value(d) == decimal_value(d.drop_last()) * 10 + (d.last() as int - 48));
    }
}

/// The text of an entry shows its path, then its own type, then whether it is
/// a link, in brackets and separated by a comma and a space.
pub proof fn law_entry_text_parts(e: FsEntryView)
    ensures
        entry_text(e) == "("@ + e.path + ", "@ + (match e.file_type {
            FsEntryType::File => "File"@,
            FsEntryType::Directory => "Directory"@,
        }) + ", "@ + (if e.is_link {
            "true"@
        } else {
            "false"@
        }) + ")"@,
{
}

/// The text of an error code shows where it comes from, then its number in decimal, in brackets.
pub proof fn law_error_code_text_parts(c: ErrorCode)
    ensures
        error_code_text(c) == match c {
            ErrorCode::Session(n) => "Session("@ + decimal(n as int) + ")"@,
            ErrorCode::SFTP(n) => "SFTP("@ + decimal(n as int) + ")"@,
        },
        decimal(0) == seq!['0'],
        forall|n: int| n < 0 ==> #[trigger] decimal(n) == seq!['-'] + digits((-n) as nat),
        forall|n: int| n >= 0 ==> #[trigger] decimal(n) == digits(n as nat),
{
}

} // verus!
