use vstd::prelude::*;
use vstd::string::StringExecFns;

verus! {

/// The canned reply sent whenever someone asks to ask.
pub fn respond_ask() -> (r: String)
    ensures
        r@ == "Don't ask to ask, just ask! \nhttps://dontasktoask.com/"@,
{
    String::from_str("Don't ask to ask, just ask! \nhttps://dontasktoask.com/")
}

} // verus!
