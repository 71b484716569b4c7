//! Validators of configuration values.
use vstd::prelude::*;
use super::ValueValidator;

verus! {

/// A web path: one that starts with `/`.
#[derive(Clone, Debug)]
pub struct WebPathValidator {}

impl ValueValidator<String> for WebPathValidator {
    fn validate(&self, path: &String) -> (r: Result<(), String>)
        ensures
            path@.len() > 0 && path@[0] == '/' ==> r is Ok,
            !(path@.len() > 0 && path@[0] == '/') ==> (r matches Err(e) && e@
                == "path must start with / character: "@ + path@),
    {
        let p = path.as_str();
        if p.unicode_len() > 0 && p.get_char(0) == '/' {
            Ok(())
        } else {
            Err("path must start with / character: ".to_owned().concat(p))
        }
    }
}

} // verus!
