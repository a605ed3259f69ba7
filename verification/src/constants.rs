//! The club's title.

use vstd::prelude::*;

verus! {

/// The title used when none is configured.
pub const DEFAULT_TITLE: &'static str = "Inkwell Collective";

/// A value computed once and shown as text.
pub struct Constant<T> {
    pub value: T,
}

impl Constant<String> {
    /// The club title: the configured one when there is one, else
    /// `DEFAULT_TITLE`.
    pub fn title(configured: Option<String>) -> (c: Constant<String>)
        ensures
            match configured {
                Some(t) => c.value == t,
                None => c.value@ == DEFAULT_TITLE@,
            },
    {
        match configured {
            Some(t) => Constant { value: t },
            None => Constant { value: String::from_str(DEFAULT_TITLE) },
        }
    }

    /// The text the constant is shown as: its value.
    pub fn to_text(&self) -> (s: String)
        ensures
            s == self.value,
    {
        self.value.clone()
    }
}

} // verus!
