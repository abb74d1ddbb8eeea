use crate::control::Control;
use std::sync::Arc;
use vstd::prelude::*;

verus! {

/// What the web handlers share.
pub struct WebAppState {
    pub control: Arc<Control>,
}

impl WebAppState {
    pub fn new(control: Arc<Control>) -> (r: Self)
        ensures
            r.control == control,
    {
        Self { control }
    }
}

} // verus!
