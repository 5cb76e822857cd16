//! Command arguments that name entities: entity selectors (`@s`, a UUID, a
//! player name) and entity types (`zombie`, `minecraft:cow`).

use vstd::prelude::*;
use vstd::string::StringSliceAdditionalSpecFns;

use crate::text::{chars_of, string_of};

verus! {

/// The result of parsing an entity selector.
#[derive(Debug, Clone)]
pub enum EntitySelector {
    /// The command sender themselves (`@s`)
    CurrentEntity,
    /// Nearest player (`@p`)
    NearestPlayer,
    /// All players (`@a`)
    AllPlayers,
    /// Random player (`@r`)
    RandomPlayer,
    /// All entities (`@e`)
    AllEntities,
    /// Nearest entity (`@n`)
    NearestEntity,
    /// A specific entity by UUID (as a 128-bit value)
    Uuid(u128),
    /// A player by name
    PlayerName(String),
}

/// The base selector a char after `@` names, if any.
pub open spec fn base_selector(c: char) -> Option<EntitySelector> {
    if c == 's' {
        Some(EntitySelector::CurrentEntity)
    } else if c == 'p' {
        Some(EntitySelector::NearestPlayer)
    } else if c == 'a' {
        Some(EntitySelector::AllPlayers)
    } else if c == 'r' {
        Some(EntitySelector::RandomPlayer)
    } else if c == 'e' {
        Some(EntitySelector::AllEntities)
    } else if c == 'n' {
        Some(EntitySelector::NearestEntity)
    } else {
        None
    }
}

/// The UUID a text spells, as `uuid::Uuid::parse_str` reads it (hyphenated,
/// simple, braced or URN form), as a 128-bit value.
pub uninterp spec fn parsed_uuid(s: Seq<char>) -> Option<u128>;

/// `uuid::Uuid::parse_str`, the UUID as a 128-bit value (`Uuid::as_u128`).
///
/// Which texts are UUIDs, and of which value, is the uuid crate's parser; it is
/// named by [`parsed_uuid`], not written out.
#[verifier::external_body]
fn parse_uuid(s: &str) -> (r: Option<u128>)
    ensures
        r == parsed_uuid(s@),
{
    match uuid::Uuid::parse_str(s) {
        Ok(u) => Some(u.as_u128()),
        Err(_) => None,
    }
}

/// The selector a single argument names, given what the UUID parser made of
/// it: `@` and a base selector char; else the UUID; else a player name of one
/// to sixteen bytes.
pub fn selector_from(s: &str, uuid: Option<u128>) -> (r: Option<EntitySelector>)
    ensures
        s@.len() > 0 && s@[0] == '@' ==> match (if s@.len() >= 2 {
            base_selector(s@[1])
        } else {
            None
        }) {
            Some(b) => r == Some(b),
            None => r is None,
        },
        !(s@.len() > 0 && s@[0] == '@') ==> match uuid {
            Some(u) => r == Some(EntitySelector::Uuid(u)),
            None => if s@.len() > 0 && s.spec_bytes().len() <= 16 {
                r matches Some(EntitySelector::PlayerName(n)) && n@ == s@
            } else {
                r is None
            },
        },
{
    let cs = chars_of(s);
    if cs.len() > 0 && cs[0] == '@' {
        if cs.len() < 2 {
            return None;
        }
        let c = cs[1];
        return if c == 's' {
            Some(EntitySelector::CurrentEntity)
        } else if c == 'p' {
            Some(EntitySelector::NearestPlayer)
        } else if c == 'a' {
            Some(EntitySelector::AllPlayers)
        } else if c == 'r' {
            Some(EntitySelector::RandomPlayer)
        } else if c == 'e' {
            Some(EntitySelector::AllEntities)
        } else if c == 'n' {
            Some(EntitySelector::NearestEntity)
        } else {
            None
        };
    }
    if let Some(u) = uuid {
        return Some(EntitySelector::Uuid(u));
    }
    if cs.len() > 0 && s.as_bytes().len() <= 16 {
        return Some(EntitySelector::PlayerName(string_of(cs.as_slice())));
    }
    None
}

/// An entity selector command argument.
///
/// Supports `@s`, `@p`, `@a`, `@r`, `@e`, `@n`, a UUID, and a player name
/// (1-16 chars).
pub struct EntitySelectorArgument;

impl EntitySelectorArgument {
    /// Reads the selector that the first argument names; the other arguments
    /// are handed back.
    pub fn parse<'a>(&self, arg: &'a [&'a str]) -> (r: Option<(&'a [&'a str], EntitySelector)>)
        ensures
            arg@.len() == 0 ==> r is None,
            arg@.len() > 0 ==> ({
                let s = arg@[0];
                let uuid = if s@.len() > 0 && s@[0] == '@' {
                    None
                } else {
                    parsed_uuid(s@)
                };
                match r {
                    Some((rest, sel)) => rest@ == arg@.skip(1) && selector_from_spec(s, uuid, sel),
                    None => selector_fails(s, uuid),
                }
            }),
    {
        if arg.len() == 0 {
            return None;
        }
        let s = arg[0];
        let cs = chars_of(s);
        let uuid = if cs.len() > 0 && cs[0] == '@' {
            None
        } else {
            parse_uuid(s)
        };
        match selector_from(s, uuid) {
            Some(sel) => {
                let rest = &arg[1..arg.len()];
                Some((rest, sel))
            },
            None => None,
        }
    }
}

/// `sel` is what [`selector_from`] gives for `s` and `uuid`.
pub open spec fn selector_from_spec(s: &str, uuid: Option<u128>, sel: EntitySelector) -> bool {
    if s@.len() > 0 && s@[0] == '@' {
        s@.len() >= 2 && base_selector(s@[1]) == Some(sel)
    } else {
        match uuid {
            Some(u) => sel == EntitySelector::Uuid(u),
            None => s@.len() > 0 && s.spec_bytes().len() <= 16 && (sel matches EntitySelector::PlayerName(
                n,
            ) && n@ == s@),
        }
    }
}

/// [`selector_from`] gives nothing for `s` and `uuid`.
pub open spec fn selector_fails(s: &str, uuid: Option<u128>) -> bool {
    if s@.len() > 0 && s@[0] == '@' {
        !(s@.len() >= 2 && base_selector(s@[1]) is Some)
    } else {
        uuid is None && !(s@.len() > 0 && s.spec_bytes().len() <= 16)
    }
}

/// The registry key an entity type argument stands for: the text itself when
/// it holds a `:`, else the text in the `minecraft` namespace.
pub open spec fn entity_type_key(s: Seq<char>) -> Seq<char> {
    if exists|i: int| 0 <= i < s.len() && s[i] == ':' {
        s
    } else {
        seq!['m', 'i', 'n', 'e', 'c', 'r', 'a', 'f', 't', ':'] + s
    }
}

/// The registry key an entity type argument stands for (see [`entity_type_key`]).
pub fn full_entity_type_key(s: &str) -> (r: String)
    ensures
        r@ == entity_type_key(s@),
{
    let cs = chars_of(s);
    if crate::text::contains(cs.as_slice(), ':') {
        return string_of(cs.as_slice());
    }
    let prefix = ['m', 'i', 'n', 'e', 'c', 'r', 'a', 'f', 't', ':'];
    let mut all: Vec<char> = Vec::new();
    let mut i: usize = 0;
    while i < 10
        invariant
            i <= 10,
            prefix@ == seq!['m', 'i', 'n', 'e', 'c', 'r', 'a', 'f', 't', ':'],
            all@ == prefix@.take(i as int),
        decreases 10 - i,
    {
        all.push(prefix[i]);
        assert(prefix@.take(i + 1) == prefix@.take(i as int).push(prefix@[i as int]));
        i += 1;
    }
    assert(prefix@.take(10) == prefix@);
    let mut j: usize = 0;
    while j < cs.len()
        invariant
            j <= cs@.len(),
            all@ == prefix@ + cs@.take(j as int),
        decreases cs@.len() - j,
    {
        all.push(cs[j]);
        assert(cs@.take(j + 1) == cs@.take(j as int).push(cs@[j as int]));
        j += 1;
    }
    assert(cs@.take(cs@.len() as int) == cs@);
    string_of(all.as_slice())
}

/// An entity type command argument, such as `minecraft:cow` or `zombie`.
pub struct EntityTypeArgument;

impl EntityTypeArgument {
    /// Reads the entity type that the first argument names, among the keys of
    /// the known entity types: the position of the first key equal to the
    /// argument's registry key; the other arguments are handed back.
    pub fn parse<'a>(&self, arg: &'a [&'a str], keys: &[String]) -> (r: Option<(&'a [&'a str], usize)>)
        ensures
            arg@.len() == 0 ==> r is None,
            arg@.len() > 0 ==> match r {
                Some((rest, i)) => rest@ == arg@.skip(1) && i < keys@.len() && keys@[i as int]@
                    == entity_type_key(arg@[0]@) && forall|j: int|
                    0 <= j < i ==> keys@[j]@ != entity_type_key(arg@[0]@),
                None => forall|j: int| 0 <= j < keys@.len() ==> keys@[j]@ != entity_type_key(arg@[0]@),
            },
    {
        if arg.len() == 0 {
            return None;
        }
        let full_key = full_entity_type_key(arg[0]);
        let mut i: usize = 0;
        while i < keys.len()
            invariant
                i <= keys@.len(),
                arg@.len() > 0,
                full_key@ == entity_type_key(arg@[0]@),
                forall|j: int| 0 <= j < i ==> keys@[j]@ != full_key@,
            decreases keys@.len() - i,
        {
            if keys[i] == full_key {
                let rest = &arg[1..arg.len()];
                return Some((rest, i));
            }
            i += 1;
        }
        None
    }
}

} // verus!
