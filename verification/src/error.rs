//! The failures of the analyzer, and what it has to tell the log.

use vstd::prelude::*;
use vstd::string::*;

use crate::native;

verus! {

/// Why an access vector could not be explained.
#[derive(Clone, Copy, Debug, PartialEq, Eq, Structural)]
pub enum SelinuxError {
    Busy,
    InvalidArgument,
    OutOfMemory,
    Policy,
    BadSourceContext,
    BadTargetContext,
    BadClass,
    BadPermission,
    Compute,
    InteriorNul,
    InvalidNativeResult,
    UnknownStatus(i32),
}

/// The error that a status other than success stands for.
pub open spec fn error_of_status(status: i32) -> SelinuxError {
    if status == native::BUSY {
        SelinuxError::Busy
    } else if status == native::INVALID_ARGUMENT {
        SelinuxError::InvalidArgument
    } else if status == native::NOMEM {
        SelinuxError::OutOfMemory
    } else if status == native::POLICY_ERROR {
        SelinuxError::Policy
    } else if status == native::BAD_SCON {
        SelinuxError::BadSourceContext
    } else if status == native::BAD_TCON {
        SelinuxError::BadTargetContext
    } else if status == native::BAD_CLASS {
        SelinuxError::BadClass
    } else if status == native::BAD_PERMISSION {
        SelinuxError::BadPermission
    } else if status == native::COMPUTE_ERROR {
        SelinuxError::Compute
    } else {
        SelinuxError::UnknownStatus(status)
    }
}

/// The error that a status other than success stands for.
///
/// A status without an error of its own, success among them, is reported as unknown.
pub fn status_error(status: i32) -> (error: SelinuxError)
    ensures
        error == error_of_status(status),
        error is Busy <==> status == 2,
        error is InvalidArgument <==> status == 3,
        error is OutOfMemory <==> status == 4,
        error is Policy <==> status == 5,
        error is BadSourceContext <==> status == 6,
        error is BadTargetContext <==> status == 7,
        error is BadClass <==> status == 8,
        error is BadPermission <==> status == 9,
        error is Compute <==> status == 10,
        error is UnknownStatus <==> status < 2 || status > 10,
        error matches SelinuxError::UnknownStatus(unknown) ==> unknown == status,
{
    match status {
        native::BUSY => SelinuxError::Busy,
        native::INVALID_ARGUMENT => SelinuxError::InvalidArgument,
        native::NOMEM => SelinuxError::OutOfMemory,
        native::POLICY_ERROR => SelinuxError::Policy,
        native::BAD_SCON => SelinuxError::BadSourceContext,
        native::BAD_TCON => SelinuxError::BadTargetContext,
        native::BAD_CLASS => SelinuxError::BadClass,
        native::BAD_PERMISSION => SelinuxError::BadPermission,
        native::COMPUTE_ERROR => SelinuxError::Compute,
        other => SelinuxError::UnknownStatus(other),
    }
}

/// The character of a decimal digit.
pub open spec fn digit(d: nat) -> char
    recommends
        d < 10,
{
    (48 + d) as char
}

/// A natural number in decimal notation.
pub open spec fn decimal_nat(n: nat) -> Seq<char>
    decreases n,
{
    if n < 10 {
        seq![digit(n)]
    } else {
        decimal_nat(n / 10).push(digit(n % 10))
    }
}

/// An integer in decimal notation.
pub open spec fn decimal(n: int) -> Seq<char> {
    if n < 0 {
        seq!['-'] + decimal_nat((-n) as nat)
    } else {
        decimal_nat(n as nat)
    }
}

/// Appends the character of a decimal digit.
fn append_digit(text: &mut String, d: u64)
    requires
        d < 10,
    ensures
        final(text)@ == old(text)@.push(digit(d as nat)),
{
    let literal = match d {
        0 => "0",
        1 => "1",
        2 => "2",
        3 => "3",
        4 => "4",
        5 => "5",
        6 => "6",
        7 => "7",
        8 => "8",
        _ => "9",
    };
    proof {
        reveal_strlit("0");
        reveal_strlit("1");
        reveal_strlit("2");
        reveal_strlit("3");
        reveal_strlit("4");
        reveal_strlit("5");
        reveal_strlit("6");
        reveal_strlit("7");
        reveal_strlit("8");
        reveal_strlit("9");
    }
    assert(literal@ =~= seq![digit(d as nat)]);
    text.append(literal);
    assert(text@ =~= old(text)@.push(digit(d as nat)));
}

/// Appends a natural number in decimal notation.
fn append_decimal(text: &mut String, n: u64)
    ensures
        final(text)@ == old(text)@ + decimal_nat(n as nat),
    decreases n,
{
    if n >= 10 {
        append_decimal(text, n / 10);
    }
    append_digit(text, n % 10);
    assert(text@ =~= old(text)@ + decimal_nat(n as nat));
}

/// What an error says of itself.
pub open spec fn error_text(error: SelinuxError) -> Seq<char> {
    match error {
        SelinuxError::Busy => "another SELinux analyzer is already active"@,
        SelinuxError::InvalidArgument => "invalid argument passed to SELinux analyzer"@,
        SelinuxError::OutOfMemory => "SELinux analyzer ran out of memory"@,
        SelinuxError::Policy => "unable to load or inspect the active SELinux policy"@,
        SelinuxError::BadSourceContext => "invalid SELinux source context"@,
        SelinuxError::BadTargetContext => "invalid SELinux target context"@,
        SelinuxError::BadClass => "unknown SELinux object class"@,
        SelinuxError::BadPermission => "unknown SELinux permission"@,
        SelinuxError::Compute => "SELinux access-vector computation failed"@,
        SelinuxError::InteriorNul => "SELinux field contains an interior NUL byte"@,
        SelinuxError::InvalidNativeResult => "SELinux shim returned an invalid result"@,
        SelinuxError::UnknownStatus(status) => "SELinux shim returned unknown status "@ + decimal(
            status as int,
        ),
    }
}

impl SelinuxError {
    /// What the error says of itself.
    pub fn message(&self) -> (text: String)
        ensures
            text@ == error_text(*self),
    {
        match self {
            SelinuxError::Busy => String::from_str("another SELinux analyzer is already active"),
            SelinuxError::InvalidArgument => String::from_str(
                "invalid argument passed to SELinux analyzer",
            ),
            SelinuxError::OutOfMemory => String::from_str("SELinux analyzer ran out of memory"),
            SelinuxError::Policy => String::from_str(
                "unable to load or inspect the active SELinux policy",
            ),
            SelinuxError::BadSourceContext => String::from_str("invalid SELinux source context"),
            SelinuxError::BadTargetContext => String::from_str("invalid SELinux target context"),
            SelinuxError::BadClass => String::from_str("unknown SELinux object class"),
            SelinuxError::BadPermission => String::from_str("unknown SELinux permission"),
            SelinuxError::Compute => String::from_str("SELinux access-vector computation failed"),
            SelinuxError::InteriorNul => String::from_str(
                "SELinux field contains an interior NUL byte",
            ),
            SelinuxError::InvalidNativeResult => String::from_str(
                "SELinux shim returned an invalid result",
            ),
            SelinuxError::UnknownStatus(status) => {
                let mut text = String::from_str("SELinux shim returned unknown status ");
                if *status < 0 {
                    text.append("-");
                    proof {
                        reveal_strlit("-");
                    }
                    assert("-"@ =~= seq!['-']);
                    append_decimal(&mut text, (-(*status as i64)) as u64);
                } else {
                    append_decimal(&mut text, *status as u64);
                }
                assert(text@ =~= error_text(*self));
                text
            },
        }
    }
}

/// Something that the log should hear of.
#[derive(Clone, Copy, Debug, PartialEq, Eq, Structural)]
pub enum Notice {
    /// An analyzer is at work.
    Initialized,
    /// The host runs without SELinux; events pass through.
    NotEnabled,
    /// No analyzer could be opened; events pass through.
    Unavailable(SelinuxError),
    /// The policy generation could not be read; the analyzer is opened anew.
    PolicyCheckFailed(SelinuxError),
    /// One record could not be explained and is left as it was.
    ReasoningFailed(SelinuxError),
    /// Enrichment was requested of a build that has no analyzer.
    NotBuilt,
}

/// The log line of a notice.
pub open spec fn notice_text(notice: Notice) -> Seq<char> {
    match notice {
        Notice::Initialized => "SELinux WHY analyzer initialized"@,
        Notice::NotEnabled =>
            "SELinux WHY enrichment requested, but SELinux is not enabled; continuing without it"@,
        Notice::Unavailable(error) => "SELinux WHY analyzer unavailable ("@ + error_text(error)
            + "); continuing normal Laurel processing"@,
        Notice::PolicyCheckFailed(error) => "Unable to check SELinux policy generation ("@
            + error_text(error) + "); reloading analyzer"@,
        Notice::ReasoningFailed(error) => "SELinux AVC reasoning failed: "@ + error_text(error),
        Notice::NotBuilt =>
            "SELinux WHY enrichment requested, but Laurel was built without the 'selinux' feature"@,
    }
}

impl Notice {
    /// The log line of the notice.
    pub fn message(&self) -> (text: String)
        ensures
            text@ == notice_text(*self),
    {
        match self {
            Notice::Initialized => String::from_str("SELinux WHY analyzer initialized"),
            Notice::NotEnabled => String::from_str(
                "SELinux WHY enrichment requested, but SELinux is not enabled; continuing without it",
            ),
            Notice::Unavailable(error) => {
                String::from_str("SELinux WHY analyzer unavailable (").concat(
                    error.message().as_str(),
                ).concat("); continuing normal Laurel processing")
            },
            Notice::PolicyCheckFailed(error) => {
                String::from_str("Unable to check SELinux policy generation (").concat(
                    error.message().as_str(),
                ).concat("); reloading analyzer")
            },
            Notice::ReasoningFailed(error) => {
                String::from_str("SELinux AVC reasoning failed: ").concat(error.message().as_str())
            },
            Notice::NotBuilt => String::from_str(
                "SELinux WHY enrichment requested, but Laurel was built without the 'selinux' feature",
            ),
        }
    }

    /// Whether the notice warns of something; only a working analyzer is no cause for it.
    pub fn is_warning(&self) -> (warning: bool)
        ensures
            warning == !(*self is Initialized),
    {
        match self {
            Notice::Initialized => false,
            _ => true,
        }
    }
}

/// No two statuses stand for the same error.
pub proof fn law_statuses_are_told_apart(a: i32, b: i32)
    requires
        error_of_status(a) == error_of_status(b),
    ensures
        a == b,
{
}

/// Each status from two to ten stands for the error of its kind. Any other stands for an unknown
/// status, which keeps its number.
pub proof fn law_statuses_mean_errors(status: i32)
    ensures
        error_of_status(status) == SelinuxError::Busy <==> status == 2,
        error_of_status(status) == SelinuxError::InvalidArgument <==> status == 3,
        error_of_status(status) == SelinuxError::OutOfMemory <==> status == 4,
        error_of_status(status) == SelinuxError::Policy <==> status == 5,
        error_of_status(status) == SelinuxError::BadSourceContext <==> status == 6,
        error_of_status(status) == SelinuxError::BadTargetContext <==> status == 7,
        error_of_status(status) == SelinuxError::BadClass <==> status == 8,
        error_of_status(status) == SelinuxError::BadPermission <==> status == 9,
        error_of_status(status) == SelinuxError::Compute <==> status == 10,
        error_of_status(status) == SelinuxError::UnknownStatus(status) <==> status < 2 || status > 10,
{
}

/// A number in decimal notation reads as the number again: it consists of digits, starts with a
/// zero only if it is zero, and its digits have the number's value.
pub proof fn law_decimal_reads_back(n: nat)
    ensures
        decimal_nat(n).len() > 0,
        forall|i: int| 0 <= i < decimal_nat(n).len() ==> '0' <= #[trigger] decimal_nat(n)[i] <= '9',
        decimal_nat(n)[0] == '0' ==> decimal_nat(n).len() == 1,
        decimal_nat(n).fold_left(0int, |value: int, c: char| 10 * value + (c as int - '0' as int)) == n,
    decreases n,
{
    reveal_with_fuel(Seq::fold_left, 2);
    let text = decimal_nat(n);
    if n < 10 {
        assert(text.drop_last() =~= Seq::<char>::empty());
    } else {
        law_decimal_reads_back(n / 10);
        assert(text.drop_last() =~= decimal_nat(n / 10));
        assert forall|i: int| 0 <= i < text.len() implies '0' <= #[trigger] text[i] <= '9' by {
            if i < text.len() - 1 {
                assert(text[i] == decimal_nat(n / 10)[i]);
            }
        }
        if n / 10 < 10 {
            assert(decimal_nat(n / 10)[0] == digit(n / 10));
        }
    }
}

/// A negative number is written as a minus sign and the number without it.
pub proof fn law_decimal_shows_the_sign(n: int)
    ensures
        n >= 0 ==> decimal(n) == decimal_nat(n as nat),
        n < 0 ==> decimal(n)[0] == '-' && decimal(n).skip(1) == decimal_nat((-n) as nat),
{
    if n < 0 {
        assert(decimal(n).skip(1) =~= decimal_nat((-n) as nat));
    }
}

/// What each error says of itself; an unknown status is told by its number.
pub proof fn law_errors_say_what_they_are(error: SelinuxError)
    ensures
        error is Busy ==> error_text(error) == "another SELinux analyzer is already active"@,
        error is InvalidArgument ==> error_text(error) == "invalid argument passed to SELinux analyzer"@,
        error is OutOfMemory ==> error_text(error) == "SELinux analyzer ran out of memory"@,
        error is Policy ==> error_text(error) == "unable to load or inspect the active SELinux policy"@,
        error is BadSourceContext ==> error_text(error) == "invalid SELinux source context"@,
        error is BadTargetContext ==> error_text(error) == "invalid SELinux target context"@,
        error is BadClass ==> error_text(error) == "unknown SELinux object class"@,
        error is BadPermission ==> error_text(error) == "unknown SELinux permission"@,
        error is Compute ==> error_text(error) == "SELinux access-vector computation failed"@,
        error is InteriorNul ==> error_text(error) == "SELinux field contains an interior NUL byte"@,
        error is InvalidNativeResult ==> error_text(error) == "SELinux shim returned an invalid result"@,
        error matches SelinuxError::UnknownStatus(status) ==> error_text(error)
            == "SELinux shim returned unknown status "@ + decimal(status as int),
{
}

/// The log line of a notice says what happened, and names the error that it tells of, if it tells
/// of one, whichever that is.
pub proof fn law_notices_name_the_error(error: SelinuxError)
    ensures
        notice_text(Notice::Initialized) == "SELinux WHY analyzer initialized"@,
        notice_text(Notice::NotEnabled)
            == "SELinux WHY enrichment requested, but SELinux is not enabled; continuing without it"@,
        notice_text(Notice::NotBuilt)
            == "SELinux WHY enrichment requested, but Laurel was built without the 'selinux' feature"@,
        notice_text(Notice::Unavailable(error)) == "SELinux WHY analyzer unavailable ("@ + error_text(
            error,
        ) + "); continuing normal Laurel processing"@,
        notice_text(Notice::PolicyCheckFailed(error)) == "Unable to check SELinux policy generation ("@
            + error_text(error) + "); reloading analyzer"@,
        notice_text(Notice::ReasoningFailed(error)) == "SELinux AVC reasoning failed: "@ + error_text(
            error,
        ),
{
}

} // verus!
