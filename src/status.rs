use vstd::prelude::*;

verus! {

/// What a status report shows, given the answers of the two platforms.
pub enum PaymentStatusOutcome<T, E> {
    /// Both platforms answered.
    Both { zk: T, plain: T },
    /// Only the zk platform answered; the plain one shows an empty status.
    ZkOnly { zk: T },
    /// Only the plain platform answered; the zk one shows an empty status.
    PlainOnly { plain: T },
    /// The report fails with this error.
    Failed { error: E },
}

/// Whether an account bound to `platform` (any platform where `None`) uses
/// the platform named `name`.
pub fn platform_selected(platform: Option<&str>, name: &str) -> (r: bool)
    ensures
        r == match platform {
            None => true,
            Some(p) => p@ == name@,
        },
{
    match platform {
        None => true,
        Some(p) => crate::market::str_equals(p, name),
    }
}

/// Combines the two platforms' answers: both where both answered; an error
/// of a platform the account uses fails the report, the zk one first; an
/// error of another platform shows as an empty status; where both failed
/// and the account uses neither, the zk error fails it. Without an account,
/// pass `uses_zk = true` and `uses_plain = false`.
pub fn payment_status_outcome<T, E>(
    zk: Result<T, E>,
    plain: Result<T, E>,
    uses_zk: bool,
    uses_plain: bool,
) -> (r: PaymentStatusOutcome<T, E>)
    ensures
        match (zk, plain) {
            (Ok(z), Ok(p)) => r == PaymentStatusOutcome::<T, E>::Both { zk: z, plain: p },
            (Err(e), Ok(p)) => if uses_zk {
                r == PaymentStatusOutcome::<T, E>::Failed { error: e }
            } else {
                r == PaymentStatusOutcome::<T, E>::PlainOnly { plain: p }
            },
            (Ok(z), Err(e)) => if uses_plain {
                r == PaymentStatusOutcome::<T, E>::Failed { error: e }
            } else {
                r == PaymentStatusOutcome::<T, E>::ZkOnly { zk: z }
            },
            (Err(e), Err(f)) => if !uses_zk && uses_plain {
                r == PaymentStatusOutcome::<T, E>::Failed { error: f }
            } else {
                r == PaymentStatusOutcome::<T, E>::Failed { error: e }
            },
        },
{
    match (zk, plain) {
        (Ok(z), Ok(p)) => PaymentStatusOutcome::Both { zk: z, plain: p },
        (Err(e), Ok(p)) => if uses_zk {
            PaymentStatusOutcome::Failed { error: e }
        } else {
            PaymentStatusOutcome::PlainOnly { plain: p }
        },
        (Ok(z), Err(e)) => if uses_plain {
            PaymentStatusOutcome::Failed { error: e }
        } else {
            PaymentStatusOutcome::ZkOnly { zk: z }
        },
        (Err(e), Err(f)) => if !uses_zk && uses_plain {
            PaymentStatusOutcome::Failed { error: f }
        } else {
            PaymentStatusOutcome::Failed { error: e }
        },
    }
}

} // verus!
