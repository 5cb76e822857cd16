//! Commands that spawn and remove entities, their routes, and what they
//! tell the sender.

use vstd::prelude::*;

use crate::text::{chars_of, string_of};

pub mod kill;
pub mod summon;

verus! {

/// Why a command failed.
#[derive(Debug, Clone)]
pub enum CommandError {
    /// The command must be sent by a player.
    InvalidRequirement,
    /// The command failed; the text is shown to the sender.
    CommandFailed(String),
}

/// The player that sent a command.
#[derive(Debug, Clone)]
pub struct CommandPlayer {
    /// The player's UUID.
    pub uuid: u128,
    /// The player's name.
    pub name: String,
}

/// The kind of a command argument.
#[derive(Debug, Clone, Copy, PartialEq, Eq, Structural)]
pub enum ArgumentKind {
    /// An entity selector: `@s`, a UUID or a player name.
    EntitySelector,
    /// An entity type key.
    EntityType,
    /// A position: three coordinates.
    Vector3,
    /// An SNBT compound.
    Nbt,
}

/// A command argument: its name and kind.
#[derive(Debug, Clone)]
pub struct Argument {
    pub name: String,
    pub kind: ArgumentKind,
}

/// One way to run a command: the arguments it takes, in order, and the
/// executor that runs it.
#[derive(Debug)]
pub struct Route<E> {
    pub arguments: Vec<Argument>,
    pub executor: E,
}

/// A command: its names, description, permission and routes.
#[derive(Debug)]
pub struct CommandHandler<E> {
    pub names: Vec<String>,
    pub description: String,
    pub permission: String,
    pub routes: Vec<Route<E>>,
}

/// An argument of a name and kind.
pub(crate) fn argument(name: &str, kind: ArgumentKind) -> (r: Argument)
    ensures
        r.name@ == name@,
        r.kind == kind,
{
    Argument { name: name.to_owned(), kind }
}

/// The chars of a text followed by those of a sequence.
pub(crate) fn chars_then(prefix: &str, rest: &[char]) -> (r: Vec<char>)
    ensures
        r@ == prefix@ + rest@,
{
    let mut all = chars_of(prefix);
    let ghost start = all@;
    let mut j: usize = 0;
    while j < rest.len()
        invariant
            j <= rest@.len(),
            start == prefix@,
            all@ == start + rest@.take(j as int),
        decreases rest@.len() - j,
    {
        all.push(rest[j]);
        assert(rest@.take(j + 1) == rest@.take(j as int).push(rest@[j as int]));
        j += 1;
    }
    assert(rest@.take(rest@.len() as int) == rest@);
    all
}

/// A text followed by another.
pub(crate) fn join(prefix: &str, rest: &str) -> (r: String)
    ensures
        r@ == prefix@ + rest@,
{
    let tail = chars_of(rest);
    let all = chars_then(prefix, tail.as_slice());
    string_of(all.as_slice())
}

/// A text, a second one and a third.
pub(crate) fn join3(a: &str, b: &str, c: &str) -> (r: String)
    ensures
        r@ == a@ + b@ + c@,
{
    let ab = join(a, b);
    let tail = chars_of(c);
    let all = chars_then(ab.as_str(), tail.as_slice());
    string_of(all.as_slice())
}

/// The text of a failed command.
pub(crate) fn failed(text: &str) -> (r: CommandError)
    ensures
        r matches CommandError::CommandFailed(m) && m@ == text@,
{
    proof {
        reveal_strlit("");
    }
    assert(text@ + ""@ =~= text@);
    CommandError::CommandFailed(join(text, ""))
}

} // verus!
