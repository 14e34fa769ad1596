//! Profile names.
use vstd::prelude::*;
use crate::error::AppError;
use crate::text::{from_chars, is_control, is_ctrl, to_chars, trim, trim_chars};

verus! {

pub const MAX_PROFILE_NAME_CHARACTERS: usize = 64;

/// A profile name is accepted when, after trimming surrounding whitespace,
/// it is non-empty, at most 64 characters long and free of control
/// characters.
pub open spec fn valid_profile_name(name: Seq<char>) -> bool {
    let t = trim(name);
    &&& t.len() > 0
    &&& t.len() <= MAX_PROFILE_NAME_CHARACTERS
    &&& forall|i: int| 0 <= i < t.len() ==> !is_ctrl(#[trigger] t[i])
}

/// Normalizes (trims) and validates a profile name.
pub fn validate_profile_name(name: String) -> (r: Result<String, AppError>)
    ensures
        r is Ok <==> valid_profile_name(name@),
        r matches Ok(n) ==> n@ == trim(name@),
        r matches Err(e) ==> e is Profile,
{
    let chars = to_chars(name.as_str());
    let normalized = trim_chars(chars.as_slice());
    if normalized.len() == 0 {
        return Err(AppError::Profile(crate::error::msg("Profile 名称不能为空。")));
    }
    if normalized.len() > MAX_PROFILE_NAME_CHARACTERS {
        return Err(AppError::Profile(crate::error::msg("Profile 名称不能超过 64 个字符。")));
    }
    let mut i: usize = 0;
    while i < normalized.len()
        invariant
            i <= normalized.len(),
            normalized@ == trim(name@),
            forall|j: int| 0 <= j < i ==> !is_ctrl(#[trigger] normalized@[j]),
        decreases normalized.len() - i,
    {
        if is_control(normalized[i]) {
            proof {
                assert(is_ctrl(trim(name@)[i as int]));
            }
            return Err(AppError::Profile(crate::error::msg("Profile 名称不能包含控制字符。")));
        }
        i = i + 1;
    }
    Ok(from_chars(normalized.as_slice()))
}

} // verus!
