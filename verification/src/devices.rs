//! Choice of a capture device by its friendly name.

use crate::text;
use vstd::prelude::*;

verus! {

/// The result of `str::to_lowercase`.
pub uninterp spec fn lowercase(s: Seq<char>) -> Seq<char>;

/// `str::to_lowercase`: the lower-case equivalent of a text, character by character
/// as Unicode has it. The text alone determines the result, which is given the name
/// [`lowercase`]; how it is spelled is left unsaid.
#[verifier::external_body]
fn to_lowercase(s: &str) -> (r: String)
    ensures
        r@ == lowercase(s@),
{
    s.to_lowercase()
}

/// Whether a device name passes a filter: without one every name does, otherwise
/// the filter must occur in the name, whatever the case of either.
pub open spec fn passes(filter: Option<Seq<char>>, name: Seq<char>) -> bool {
    match filter {
        Some(f) => text::occurs(lowercase(f), lowercase(name)),
        None => true,
    }
}

/// Whether a name passes a filter.
pub fn name_passes(filter: Option<&str>, name: &str) -> (yes: bool)
    ensures
        yes == passes(
            match filter {
                Some(f) => Some(f@),
                None => None,
            },
            name@,
        ),
{
    match filter {
        Some(f) => {
            let hay: String = to_lowercase(name);
            let needle: String = to_lowercase(f);
            text::contains(hay.as_str(), needle.as_str())
        },
        None => true,
    }
}

/// A walk over the devices of a category.
pub struct DeviceSearch {
    filter: Option<String>,
    seen: Vec<String>,
    chosen: Option<usize>,
}

impl DeviceSearch {
    /// What the names are held against.
    pub closed spec fn filter(&self) -> Option<Seq<char>> {
        match self.filter {
            Some(f) => Some(f@),
            None => None,
        }
    }

    /// The names so far.
    pub closed spec fn seen(&self) -> Seq<Seq<char>> {
        self.seen@.map_values(|s: String| s@)
    }

    /// The number of the device that was taken.
    pub closed spec fn chosen(&self) -> Option<usize> {
        self.chosen
    }

    /// The device taken is the first whose name passes.
    pub open spec fn wf(&self) -> bool {
        match self.chosen() {
            Some(i) => {
                &&& i < self.seen().len()
                &&& passes(self.filter(), self.seen()[i as int])
                &&& forall|j: int|
                    0 <= j < i ==> !passes(self.filter(), #[trigger] self.seen()[j])
            },
            None => forall|j: int|
                0 <= j < self.seen().len() ==> !passes(self.filter(), #[trigger] self.seen()[j]),
        }
    }

    /// Starts a walk.
    pub fn new(filter: Option<String>) -> (d: Self)
        ensures
            d.wf(),
            d.seen() == Seq::<Seq<char>>::empty(),
            d.chosen() is None,
            d.filter() == (match filter {
                Some(f) => Some(f@),
                None => None,
            }),
    {
        let d: DeviceSearch = DeviceSearch { filter, seen: Vec::new(), chosen: None };
        assert(d.seen() =~= Seq::<Seq<char>>::empty());
        d
    }

    /// Shows the next device; one without a friendly name has the empty name. Says
    /// whether it is the one to take.
    pub fn offer(&mut self, name: Option<String>) -> (take: bool)
        requires
            old(self).wf(),
        ensures
            final(self).wf(),
            final(self).filter() == old(self).filter(),
            final(self).seen() == old(self).seen().push(
                match name {
                    Some(s) => s@,
                    None => Seq::<char>::empty(),
                },
            ),
            take == (old(self).chosen() is None && final(self).chosen() is Some),
            old(self).chosen() is Some ==> final(self).chosen() == old(self).chosen(),
    {
        let name: String = match name {
            Some(s) => s,
            None => String::new(),
        };
        let matched: bool = match &self.filter {
            Some(f) => name_passes(Some(f.as_str()), name.as_str()),
            None => name_passes(None, name.as_str()),
        };
        let ghost before = self.seen();
        let ghost shown = name@;
        assert(matched == passes(self.filter(), shown));
        let index: usize = self.seen.len();
        self.seen.push(name);
        assert(self.seen() =~= before.push(shown));
        assert(forall|j: int| 0 <= j < before.len() ==> self.seen()[j] == before[j]);
        if matched && self.chosen.is_none() {
            self.chosen = Some(index);
            assert(self.seen()[index as int] == shown);
            true
        } else {
            false
        }
    }

    /// The names so far, for a message.
    pub fn names(&self) -> (v: &Vec<String>)
        ensures
            v@.map_values(|s: String| s@) == self.seen(),
    {
        &self.seen
    }

    /// Whether a device was taken.
    pub fn found(&self) -> (yes: bool)
        ensures
            yes == self.chosen() is Some,
    {
        self.chosen.is_some()
    }
}

/// The friendly name of a device: the property must be a text that is not empty.
pub fn friendly_name(property: Option<String>) -> (r: Option<String>)
    ensures
        match r {
            Some(name) => property is Some && name@ == property.unwrap()@ && name@.len() > 0,
            None => property is None || property.unwrap()@.len() == 0,
        },
{
    match property {
        Some(name) => {
            if name.as_str().unicode_len() == 0 {
                None
            } else {
                Some(name)
            }
        },
        None => None,
    }
}

/// Without a filter every name passes. With one, exactly those names pass that hold the
/// filter somewhere, once both are in lower case; so a filter of nothing lets every name
/// pass, and a name passes the filter that it is itself.
pub proof fn filters_look_for_a_part_of_the_name(filter: Seq<char>, name: Seq<char>)
    ensures
        passes(None, name),
        passes(Some(filter), name) <==> exists|a: Seq<char>, b: Seq<char>|
            lowercase(name) == #[trigger] (a + lowercase(filter) + b),
        lowercase(filter).len() == 0 ==> passes(Some(filter), name),
        lowercase(filter) == lowercase(name) ==> passes(Some(filter), name),
{
    text::occurrences_can_be_cut_out(lowercase(filter), lowercase(name));
    let none = Seq::<char>::empty();
    if lowercase(filter).len() == 0 {
        assert(lowercase(name) =~= none + lowercase(filter) + lowercase(name));
    }
    if lowercase(filter) == lowercase(name) {
        assert(lowercase(name) =~= none + lowercase(filter) + none);
    }
}

/// Without a filter the first device that is offered is taken, whatever its name.
pub proof fn first_device_is_taken_without_a_filter(d: DeviceSearch)
    requires
        d.wf(),
        d.filter() is None,
        d.seen().len() > 0,
    ensures
        d.chosen() == Some(0usize),
{
    filters_look_for_a_part_of_the_name(Seq::empty(), d.seen()[0]);
    assert(passes(d.filter(), d.seen()[0]));
}

/// With a filter the device taken is the first whose name holds the filter, both in lower
/// case; and if there is such a device, one is taken.
pub proof fn first_matching_device_is_taken(d: DeviceSearch, filter: Seq<char>, i: int)
    requires
        d.wf(),
        d.filter() == Some(filter),
        0 <= i < d.seen().len(),
    ensures
        (exists|a: Seq<char>, b: Seq<char>|
            lowercase(d.seen()[i]) == #[trigger] (a + lowercase(filter) + b)) ==> (
        d.chosen() matches Some(k) && k <= i),
        (d.chosen() matches Some(k) && k == i) ==> exists|a: Seq<char>, b: Seq<char>|
            lowercase(d.seen()[i]) == #[trigger] (a + lowercase(filter) + b),
        d.chosen() matches Some(k) ==> k < d.seen().len(),
{
    filters_look_for_a_part_of_the_name(filter, d.seen()[i]);
}

} // verus!
