//! Data model of the focus and prompt helpers. Rendering, callbacks and
//! the element tree belong to the embedding UI layer; what is modelled
//! here is the state those helpers decide on.

use vstd::prelude::*;

verus! {

/// Relies on rand::random: draws a fresh token. Nothing is assumed of
/// the value drawn.
#[verifier::external_body]
fn random_token() -> u128 {
    rand::random::<u128>()
}

/// Which element instance holds focus: the instance id paired with a
/// token drawn fresh on every grant, so that two grants of focus to the
/// same instance still compare unequal.
#[derive(Clone, Debug, PartialEq, Eq)]
pub struct Focus(pub Option<(String, u128)>);

impl Focus {
    pub fn new(focus: Option<String>) -> (r: Focus)
        ensures
            focus is Some ==> r.0 is Some && (r.0->0).0 == focus->0,
            focus is None ==> r.0 is None,
    {
        match focus {
            Some(instance_id) => Focus(Some((instance_id, random_token()))),
            None => Focus(None),
        }
    }

    /// Whether the element instance with `instance_id` holds focus.
    pub fn is_focused(&self, instance_id: &String) -> (b: bool)
        ensures
            b == (self.0 is Some && (self.0->0).0@ == instance_id@),
    {
        match &self.0 {
            Some(focused) => focused.0 == *instance_id,
            None => false,
        }
    }
}

/// The data of a text-input dialog: its title, and the placeholder text
/// shown while the editor is empty.
#[derive(Clone, Debug)]
pub struct Prompt {
    pub title: String,
    pub placeholder: Option<String>,
}

impl Prompt {
    /// A prompt with the given title and no placeholder of its own.
    pub fn new(title: String) -> (r: Prompt)
        ensures
            r.title == title,
            r.placeholder is None,
    {
        Prompt { title, placeholder: None }
    }

    /// Replaces the placeholder text.
    pub fn placeholder(self, placeholder: String) -> (r: Prompt)
        ensures
            r.title == self.title,
            r.placeholder == Some(placeholder),
    {
        Prompt { title: self.title, placeholder: Some(placeholder) }
    }
}

} // verus!
