//! Where the configuration lives: paths under the home directory.

use crate::text::{chars_of, has_prefix, same_chars, slice_of, starts_with, string_of};
use vstd::prelude::*;

verus! {

/// The prefix that stands for the home directory.
pub open spec fn home_prefix() -> Seq<char> {
    seq!['~', '/']
}

/// What follows the home prefix in `path`, where `path` begins with it.
pub open spec fn after_home_prefix(path: Seq<char>) -> Option<Seq<char>> {
    if has_prefix(path, home_prefix()) {
        Some(path.skip(2))
    } else {
        None
    }
}

/// What follows `~/` in `path`, where `path` begins with that.
pub fn tilde_rest(path: &str) -> (rest: Option<String>)
    ensures
        match rest {
            Some(r) => after_home_prefix(path@) == Some(r@),
            None => after_home_prefix(path@).is_none(),
        },
{
    let chars = chars_of(path);
    let mut prefix: Vec<char> = Vec::new();
    prefix.push('~');
    prefix.push('/');
    proof {
        assert(prefix@ =~= home_prefix());
    }
    if starts_with(&chars, &prefix) {
        let rest = slice_of(&chars, 2, chars.len());
        Some(string_of(&rest))
    } else {
        None
    }
}

/// The components of a path, each as text; `None` stands for a component
/// that is no text.
pub open spec fn component_texts(home: Seq<Option<String>>) -> Seq<Option<Seq<char>>> {
    home.map_values(
        |c: Option<String>|
            match c {
                Some(s) => Some(s@),
                None => None,
            },
    )
}

/// Whether a home directory with the components `home` belongs to the user
/// `username`: its third component is the name of the user.
pub open spec fn is_home_of(username: Seq<char>, home: Seq<Option<Seq<char>>>) -> bool {
    home.len() > 2 && home[2] == Some(username)
}

/// Whether the home directory with the components `home`, the root
/// included, belongs to the user `username`: whether its third component,
/// as in `/home/name`, is the name of the user.
pub fn is_valid_home(username: &str, home: &Vec<Option<String>>) -> (valid: bool)
    ensures
        valid == is_home_of(username@, component_texts(home@)),
{
    if home.len() <= 2 {
        return false;
    }
    match &home[2] {
        Some(component) => same_chars(&chars_of(component.as_str()), &chars_of(username)),
        None => false,
    }
}

/// What becomes of a path that may begin with `~/`.
#[derive(Debug, PartialEq)]
pub enum Expansion {
    /// The path stays as it is.
    Unchanged,
    /// The path is what follows `~/`, under the home directory.
    Under(String),
    /// The home directory is not that of the user.
    Denied,
    /// The path lies under the home directory, but the user is not known.
    NoUser,
}

/// What becomes of a path, as plain values.
pub enum ExpansionView {
    Unchanged,
    Under(Seq<char>),
    Denied,
    NoUser,
}

impl View for Expansion {
    type V = ExpansionView;

    open spec fn view(&self) -> ExpansionView {
        match self {
            Expansion::Unchanged => ExpansionView::Unchanged,
            Expansion::Under(rest) => ExpansionView::Under(rest@),
            Expansion::Denied => ExpansionView::Denied,
            Expansion::NoUser => ExpansionView::NoUser,
        }
    }
}

/// What becomes of `path` where the home directory has the components
/// `home` and the user is `username`, each where it is known.
///
/// A path that does not begin with `~/` stays as it is, and so does every
/// path where no home directory is set. Otherwise the path lies under the
/// home directory, if that belongs to the user; it is denied if the
/// directory is another's, and nothing can be said if the user is unknown.
pub open spec fn expansion_of(
    path: Seq<char>,
    home: Option<Seq<Option<Seq<char>>>>,
    username: Option<Seq<char>>,
) -> ExpansionView {
    match (after_home_prefix(path), home) {
        (Some(rest), Some(components)) => match username {
            Some(name) => if is_home_of(name, components) {
                ExpansionView::Under(rest)
            } else {
                ExpansionView::Denied
            },
            None => ExpansionView::NoUser,
        },
        _ => ExpansionView::Unchanged,
    }
}

/// The components of a home directory, where one is set, as texts.
pub open spec fn home_texts(home: Option<&Vec<Option<String>>>) -> Option<Seq<Option<Seq<char>>>> {
    match home {
        Some(components) => Some(component_texts(components@)),
        None => None,
    }
}

/// The name of a user, where one is known, as a text.
pub open spec fn name_text(username: Option<&str>) -> Option<Seq<char>> {
    match username {
        Some(name) => Some(name@),
        None => None,
    }
}

/// What becomes of `path`: whether it stays, lies under the home directory
/// with the components `home`, or is denied to the user `username`.
pub fn expansion(path: &str, home: Option<&Vec<Option<String>>>, username: Option<&str>) -> (e:
    Expansion)
    ensures
        e@ == expansion_of(path@, home_texts(home), name_text(username)),
{
    match (tilde_rest(path), home) {
        (Some(rest), Some(components)) => match username {
            Some(name) => {
                if is_valid_home(name, components) {
                    Expansion::Under(rest)
                } else {
                    Expansion::Denied
                }
            },
            None => Expansion::NoUser,
        },
        _ => Expansion::Unchanged,
    }
}

} // verus!
