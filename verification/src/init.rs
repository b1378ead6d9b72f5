//! Decisions of the interactive initialization dialogue, kept free of I/O:
//! the caller reads lines (an empty line arrives as `None`) and hands them
//! in, and these functions decide what the answers mean. A required prompt
//! is re-asked until a line is answered, so it is decided over a transcript
//! of rounds.

use vstd::prelude::*;

verus! {

/// The answers that initialize a new bundle description: its name, and an
/// optional uuid.
#[derive(Clone, Debug, PartialEq, Eq)]
pub struct DnaInit {
    /// The bundle's name.
    pub name: String,
    /// The uuid to install under.
    pub uuid: Option<String>,
}

/// The first answered line of a transcript of prompt rounds; `None` when
/// every round went unanswered.
pub open spec fn first_answer(lines: Seq<Option<String>>) -> Option<String>
    decreases lines.len(),
{
    if lines.len() == 0 {
        None
    } else if lines.first() is Some {
        lines.first()
    } else {
        first_answer(lines.drop_first())
    }
}

/// The uuid used when the uuid prompt goes unanswered.
pub open spec fn default_uuid() -> Seq<char> {
    "00000000-0000-0000-0000-000000000000"@
}

/// Decides a prompt with a fallback: the answer given, or the fallback when
/// the line went unanswered.
pub fn prompt_default(line: Option<String>, fallback: String) -> (r: String)
    ensures
        line is Some ==> r == line->0,
        line is None ==> r == fallback,
{
    match line {
        Some(l) => l,
        None => fallback,
    }
}

/// Decides an optional prompt: an unanswered line is itself a valid answer.
pub fn prompt_optional(line: Option<String>) -> (r: Option<String>)
    ensures
        r == line,
{
    line
}

/// Decides a required prompt over a transcript of rounds: the first
/// answered line. `None` means every round went unanswered and the prompt
/// would ask again.
pub fn prompt_required(lines: Vec<Option<String>>) -> (r: Option<String>)
    ensures
        r == first_answer(lines@),
{
    let mut rest = lines;
    while rest.len() > 0
        invariant
            first_answer(lines@) == first_answer(rest@),
        decreases rest@.len(),
    {
        let ghost before = rest@;
        let line = rest.remove(0);
        proof {
            assert(rest@ =~= before.drop_first());
        }
        match line {
            Some(l) => {
                proof {
                    assert(before.first() == line);
                    assert(first_answer(before) == before.first());
                }
                return Some(l);
            }
            None => {
            }
        }
    }
    None
}

/// Decides the whole init dialogue from its transcript: the name is
/// required, the uuid falls back to the default. Yields the init answers
/// exactly when a name was given.
pub fn prompt_dna_init(name_lines: Vec<Option<String>>, uuid_line: Option<String>) -> (r: Option<
    DnaInit,
>)
    ensures
        first_answer(name_lines@) is None ==> r is None,
        first_answer(name_lines@) is Some ==> {
            &&& r is Some
            &&& r->0.name == first_answer(name_lines@)->0
            &&& r->0.uuid is Some
            &&& (uuid_line is Some ==> r->0.uuid->0 == uuid_line->0)
            &&& (uuid_line is None ==> r->0.uuid->0@ == default_uuid())
        },
{
    let name = match prompt_required(name_lines) {
        Some(n) => n,
        None => {
            return None;
        }
    };
    let uuid = prompt_default(uuid_line, default_uuid_string());
    Some(DnaInit { name, uuid: Some(uuid) })
}

/// The default uuid as an owned string.
fn default_uuid_string() -> (s: String)
    ensures
        s@ == default_uuid(),
{
    "00000000-0000-0000-0000-000000000000".to_owned()
}

/// The answers that initialize a new application description: its name and
/// a description, which may stay empty.
#[derive(Clone, Debug, PartialEq, Eq)]
pub struct AppInit {
    /// The application's name.
    pub name: String,
    /// Its description; empty when the prompt went unanswered.
    pub description: String,
}

/// Decides the application init dialogue from its transcript: the name is
/// required, the description is optional and falls back to the empty
/// string. Yields the init answers exactly when a name was given.
pub fn prompt_app_init(name_lines: Vec<Option<String>>, description_line: Option<String>) -> (r:
    Option<AppInit>)
    ensures
        first_answer(name_lines@) is None ==> r is None,
        first_answer(name_lines@) is Some ==> {
            &&& r is Some
            &&& r->0.name == first_answer(name_lines@)->0
            &&& (description_line is Some ==> r->0.description == description_line->0)
            &&& (description_line is None ==> r->0.description@ == Seq::<char>::empty())
        },
{
    let name = match prompt_required(name_lines) {
        Some(n) => n,
        None => {
            return None;
        }
    };
    let description = match prompt_optional(description_line) {
        Some(d) => d,
        None => empty_string(),
    };
    Some(AppInit { name, description })
}

/// The empty string.
fn empty_string() -> (s: String)
    ensures
        s@ == Seq::<char>::empty(),
{
    let s = "".to_owned();
    proof {
        reveal_strlit("");
        assert(s@ =~= Seq::<char>::empty());
    }
    s
}

} // verus!
