//! Checks of arguments.
use crate::text::{copy_text, is_blank};
use vstd::prelude::*;

verus! {

/// The name of a tribe must not be blank.
pub fn validate_tribe(tribe: &str) -> (result: Result<String, String>)
    ensures
        if crate::text::blank(tribe@) {
            result matches Err(text) && text@ == "tribe must be set"@
        } else {
            result matches Ok(name) && name@ == tribe@
        },
{
    if is_blank(tribe) {
        return Err(copy_text("tribe must be set"));
    }
    Ok(copy_text(tribe))
}

}
