//! Whether something is up.

use vstd::prelude::*;

verus! {

#[derive(Debug, Clone, Copy, PartialEq, Eq, Structural)]
pub enum Status {
    Up,
    Down,
}

impl Status {
    /// The status as a response shows it.
    pub open spec fn text(self) -> Seq<char> {
        match self {
            Status::Up => "UP"@,
            Status::Down => "DOWN"@,
        }
    }

    /// The status as a response shows it.
    pub fn as_str(&self) -> (text: &'static str)
        ensures
            text@ == self.text(),
    {
        match self {
            Status::Up => "UP",
            Status::Down => "DOWN",
        }
    }
}

/// The status of a whole: up where all of its parts are up.
pub open spec fn combined(parts: Seq<Status>) -> Status {
    if forall|i: int| 0 <= i < parts.len() ==> parts[i] == Status::Up {
        Status::Up
    } else {
        Status::Down
    }
}

/// The status of a whole, given those of its parts.
pub fn combine(parts: &[Status]) -> (whole: Status)
    ensures
        whole == combined(parts@),
{
    let mut i: usize = 0;
    while i < parts.len()
        invariant
            i <= parts@.len(),
            forall|j: int| 0 <= j < i ==> parts@[j] == Status::Up,
        decreases parts@.len() - i,
    {
        if parts[i] != Status::Up {
            return Status::Down;
        }
        i += 1;
    }
    Status::Up
}

/// The two statuses are shown differently.
pub proof fn law_status_texts_differ(left: Status, right: Status)
    ensures
        left.text() == right.text() <==> left == right,
{
    reveal_strlit("UP");
    reveal_strlit("DOWN");
    assert("UP"@.len() != "DOWN"@.len());
}

/// A whole without parts is up.
pub proof fn law_nothing_is_up()
    ensures
        combined(Seq::empty()) == Status::Up,
{
}

/// A part that is down brings down the whole.
pub proof fn law_one_part_down_brings_down_the_whole(parts: Seq<Status>, i: int)
    requires
        0 <= i < parts.len(),
        parts[i] == Status::Down,
    ensures
        combined(parts) == Status::Down,
{
}

/// A whole is up exactly where each of its parts is.
pub proof fn law_up_means_all_parts_up(parts: Seq<Status>)
    ensures
        combined(parts) == Status::Up <==> forall|i: int|
            0 <= i < parts.len() ==> #[trigger] parts[i] == Status::Up,
        combined(parts) == Status::Down <==> exists|i: int|
            0 <= i < parts.len() && #[trigger] parts[i] == Status::Down,
{
}

/// The two statuses are shown as the words UP and DOWN.
pub proof fn law_status_words(status: Status)
    ensures
        status.text() == (if status == Status::Up {
            seq!['U', 'P']
        } else {
            seq!['D', 'O', 'W', 'N']
        }),
{
    reveal_strlit("UP");
    reveal_strlit("DOWN");
    assert("UP"@ =~= seq!['U', 'P']);
    assert("DOWN"@ =~= seq!['D', 'O', 'W', 'N']);
}

} // verus!
