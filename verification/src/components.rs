//! The reports of the components of the service, each under its name.

use crate::health::{ComponentHealth, ComponentHealthView};
use crate::text;
use crate::text::TextOrder;
use vstd::prelude::*;

verus! {

/// A report and the name of the component that it is about.
#[derive(Debug, Clone)]
pub struct NamedHealth {
    pub name: String,
    pub health: ComponentHealth,
}

impl View for NamedHealth {
    type V = (Seq<char>, ComponentHealthView);

    open spec fn view(&self) -> (Seq<char>, ComponentHealthView) {
        (self.name@, self.health@)
    }
}

/// Reports by name: in the order of the names, and at most one for each.
#[derive(Debug, Clone)]
pub struct Components {
    pub entries: Vec<NamedHealth>,
}

/// Whether the names come in order, none of them twice.
pub open spec fn in_order(entries: Seq<(Seq<char>, ComponentHealthView)>) -> bool {
    forall|i: int, j: int|
        0 <= i < j < entries.len() ==> text::comes_before(
            (#[trigger] entries[i]).0,
            (#[trigger] entries[j]).0,
        )
}

/// Whether there is an entry under `name`.
pub open spec fn has_name(
    entries: Seq<(Seq<char>, ComponentHealthView)>,
    name: Seq<char>,
) -> bool {
    exists|i: int| 0 <= i < entries.len() && (#[trigger] entries[i]).0 == name
}

/// The position of an entry under `name`.
pub open spec fn position_of(
    entries: Seq<(Seq<char>, ComponentHealthView)>,
    name: Seq<char>,
) -> int {
    choose|i: int| 0 <= i < entries.len() && (#[trigger] entries[i]).0 == name
}

/// The reports that the entries hold, by name.
pub open spec fn by_name(entries: Seq<(Seq<char>, ComponentHealthView)>) -> Map<
    Seq<char>,
    ComponentHealthView,
> {
    Map::new(
        |name: Seq<char>| has_name(entries, name),
        |name: Seq<char>| entries[position_of(entries, name)].1,
    )
}

impl View for Components {
    type V = Map<Seq<char>, ComponentHealthView>;

    open spec fn view(&self) -> Map<Seq<char>, ComponentHealthView> {
        by_name(text::views(self.entries@))
    }
}

proof fn lemma_in_order_is_unique(
    entries: Seq<(Seq<char>, ComponentHealthView)>,
    i: int,
)
    requires
        in_order(entries),
        0 <= i < entries.len(),
    ensures
        has_name(entries, entries[i].0),
        position_of(entries, entries[i].0) == i,
        by_name(entries)[entries[i].0] == entries[i].1,
{
    let name = entries[i].0;
    assert(entries[i].0 == name);
    let j = position_of(entries, name);
    if j != i {
        text::law_order_is_irreflexive(name);
    }
}

proof fn lemma_insert_between(
    entries: Seq<(Seq<char>, ComponentHealthView)>,
    at: int,
    name: Seq<char>,
    health: ComponentHealthView,
)
    requires
        in_order(entries),
        0 <= at <= entries.len(),
        forall|i: int| 0 <= i < at ==> text::comes_before((#[trigger] entries[i]).0, name),
        at < entries.len() ==> text::comes_before(name, entries[at].0),
    ensures
        in_order(entries.insert(at, (name, health))),
        by_name(entries.insert(at, (name, health))) == by_name(entries).insert(name, health),
{
    let after = entries.insert(at, (name, health));
    assert forall|i: int, j: int| 0 <= i < j < after.len() implies text::comes_before(
        (#[trigger] after[i]).0,
        (#[trigger] after[j]).0,
    ) by {
        let old_i = if i < at {
            i
        } else {
            i - 1
        };
        let old_j = if j < at {
            j
        } else {
            j - 1
        };
        if i == at {
            assert(after[j] == entries[old_j]);
            if old_j > at {
                text::law_order_is_transitive(name, entries[at].0, entries[old_j].0);
            }
        } else if j == at {
            assert(after[i] == entries[old_i]);
        } else {
            assert(after[i] == entries[old_i]);
            assert(after[j] == entries[old_j]);
        }
    }
    let expected = by_name(entries).insert(name, health);
    assert(after[at] == (name, health));
    assert forall|key: Seq<char>| has_name(after, key) == expected.dom().contains(key) by {
        if has_name(after, key) && key != name {
            let i = position_of(after, key);
            assert(after[i] == entries[if i < at {
                i
            } else {
                i - 1
            }]);
        }
        if has_name(entries, key) {
            let i = position_of(entries, key);
            assert(after[if i < at {
                i
            } else {
                i + 1
            }] == entries[i]);
        }
    }
    assert forall|key: Seq<char>| has_name(after, key) implies by_name(after)[key]
        == expected[key] by {
        let i = position_of(after, key);
        lemma_in_order_is_unique(after, i);
        if i == at {
        } else {
            let old_i = if i < at {
                i
            } else {
                i - 1
            };
            assert(after[i] == entries[old_i]);
            lemma_in_order_is_unique(entries, old_i);
            if key == name {
                lemma_in_order_is_unique(after, at);
            }
        }
    }
    assert(by_name(after) =~= expected);
}

proof fn lemma_replace_at(
    entries: Seq<(Seq<char>, ComponentHealthView)>,
    at: int,
    health: ComponentHealthView,
)
    requires
        in_order(entries),
        0 <= at < entries.len(),
    ensures
        in_order(entries.update(at, (entries[at].0, health))),
        by_name(entries.update(at, (entries[at].0, health))) == by_name(entries).insert(
            entries[at].0,
            health,
        ),
{
    let name = entries[at].0;
    let after = entries.update(at, (name, health));
    assert forall|i: int, j: int| 0 <= i < j < after.len() implies text::comes_before(
        (#[trigger] after[i]).0,
        (#[trigger] after[j]).0,
    ) by {
        assert(after[i].0 == entries[i].0);
        assert(after[j].0 == entries[j].0);
    }
    let expected = by_name(entries).insert(name, health);
    assert forall|key: Seq<char>| has_name(after, key) == expected.dom().contains(key) by {
        if has_name(after, key) {
            assert(entries[position_of(after, key)].0 == key);
        }
        if has_name(entries, key) {
            assert(after[position_of(entries, key)].0 == key);
        }
        assert(after[at].0 == name);
    }
    assert forall|key: Seq<char>| has_name(after, key) implies by_name(after)[key]
        == expected[key] by {
        let i = position_of(after, key);
        lemma_in_order_is_unique(after, i);
        lemma_in_order_is_unique(entries, i);
        lemma_in_order_is_unique(entries, at);
    }
    assert(by_name(after) =~= expected);
}

impl Components {
    pub open spec fn well_formed(self) -> bool {
        in_order(text::views(self.entries@))
    }

    /// No reports.
    pub fn new() -> (components: Components)
        ensures
            components.well_formed(),
            components@ == Map::<Seq<char>, ComponentHealthView>::empty(),
    {
        let components = Components { entries: Vec::new() };
        assert(components@ =~= Map::<Seq<char>, ComponentHealthView>::empty());
        components
    }

    /// Puts `health` under `name`, in place of what is there.
    pub fn insert(&mut self, name: String, health: ComponentHealth)
        requires
            old(self).well_formed(),
        ensures
            final(self).well_formed(),
            final(self)@ == old(self)@.insert(name@, health@),
    {
        let ghost before = text::views(self.entries@);
        let mut i: usize = 0;
        while i < self.entries.len()
            invariant
                i <= self.entries@.len(),
                before == text::views(self.entries@),
                self.well_formed(),
                forall|j: int| 0 <= j < i ==> text::comes_before((#[trigger] before[j]).0, name@),
                before == text::views(old(self).entries@),
            decreases self.entries@.len() - i,
        {
            assert(before[i as int] == self.entries@[i as int]@);
            match text::text_order(self.entries[i].name.as_str(), name.as_str()) {
                TextOrder::Before => {},
                TextOrder::Same => {
                    let ghost value = health@;
                    self.entries[i] = NamedHealth { name, health };
                    proof {
                        lemma_replace_at(before, i as int, value);
                        assert(text::views(self.entries@) =~= before.update(
                            i as int,
                            (before[i as int].0, value),
                        ));
                    }
                    return ;
                },
                TextOrder::After => {
                    let ghost value = health@;
                    let ghost key = name@;
                    self.entries.insert(i, NamedHealth { name, health });
                    proof {
                        lemma_insert_between(before, i as int, key, value);
                        assert(text::views(self.entries@) =~= before.insert(
                            i as int,
                            (key, value),
                        ));
                    }
                    return ;
                },
            }
            i += 1;
        }
        let ghost value = health@;
        let ghost key = name@;
        self.entries.push(NamedHealth { name, health });
        proof {
            lemma_insert_between(before, i as int, key, value);
            assert(text::views(self.entries@) =~= before.insert(i as int, (key, value)));
        }
    }

    /// The report under `name`.
    pub fn get(&self, name: &str) -> (health: Option<&ComponentHealth>)
        requires
            self.well_formed(),
        ensures
            match health {
                Some(found) => self@.contains_key(name@) && self@[name@] == found@,
                None => !self@.contains_key(name@),
            },
    {
        let ghost entries = text::views(self.entries@);
        let mut i: usize = 0;
        while i < self.entries.len()
            invariant
                i <= self.entries@.len(),
                entries == text::views(self.entries@),
                self.well_formed(),
                forall|j: int| 0 <= j < i ==> (#[trigger] entries[j]).0 != name@,
            decreases self.entries@.len() - i,
        {
            if text::same_text(self.entries[i].name.as_str(), name) {
                proof {
                    assert(entries[i as int].0 == name@);
                    lemma_in_order_is_unique(entries, i as int);
                }
                return Some(&self.entries[i].health);
            }
            assert(entries[i as int].0 != name@);
            i += 1;
        }
        None
    }
}

/// A collection in good order holds the report of each entry under its name and
/// no others. Its names come one before the other, none of them twice.
pub proof fn law_entries_are_the_components(components: Components)
    requires
        components.well_formed(),
    ensures
        forall|i: int|
            0 <= i < components.entries@.len() ==> {
                &&& components@.contains_key((#[trigger] components.entries@[i]).name@)
                &&& components@[components.entries@[i].name@] == components.entries@[i].health@
            },
        forall|name: Seq<char>| #[trigger]
            components@.contains_key(name) ==> exists|i: int|
                0 <= i < components.entries@.len() && (#[trigger] components.entries@[i]).name@
                    == name,
        forall|i: int, j: int|
            0 <= i < j < components.entries@.len() ==> text::comes_before(
                (#[trigger] components.entries@[i]).name@,
                (#[trigger] components.entries@[j]).name@,
            ),
{
    let entries = text::views(components.entries@);
    assert forall|i: int| 0 <= i < components.entries@.len() implies {
        &&& components@.contains_key((#[trigger] components.entries@[i]).name@)
        &&& components@[components.entries@[i].name@] == components.entries@[i].health@
    } by {
        assert(entries[i] == components.entries@[i]@);
        lemma_in_order_is_unique(entries, i);
    }
    assert forall|name: Seq<char>| #[trigger] components@.contains_key(name) implies exists|i: int|
        0 <= i < components.entries@.len() && (#[trigger] components.entries@[i]).name@ == name by {
        let i = position_of(entries, name);
        assert(entries[i] == components.entries@[i]@);
    }
    assert forall|i: int, j: int| 0 <= i < j < components.entries@.len() implies text::comes_before(
        (#[trigger] components.entries@[i]).name@,
        (#[trigger] components.entries@[j]).name@,
    ) by {
        assert(entries[i].0 == components.entries@[i].name@);
        assert(entries[j].0 == components.entries@[j].name@);
    }
}

} // verus!
