//! HTTP headers, ordered by name.
use crate::ordered;
use crate::text;
use vstd::prelude::*;

verus! {

/// HTTP headers in ascending order of their names, each name once.
#[derive(Debug)]
pub struct Headers {
    entries: Vec<(String, String)>,
}

/// A name and a value.
pub type HeaderView = (Seq<char>, Seq<char>);

/// The views of a list of headers.
pub open spec fn header_views(list: Seq<(String, String)>) -> Seq<HeaderView> {
    list.map_values(|h: (String, String)| (h.0@, h.1@))
}

impl View for Headers {
    type V = Seq<HeaderView>;

    closed spec fn view(&self) -> Seq<HeaderView> {
        header_views(self.entries@)
    }
}

impl Headers {
    #[verifier::type_invariant]
    spec fn inv(&self) -> bool {
        text::ascending(ordered::keys(header_views(self.entries@)))
    }

    /// No headers.
    pub fn new() -> (r: Headers)
        ensures
            r@ == Seq::<HeaderView>::empty(),
    {
        Headers { entries: Vec::new() }
    }

    /// The headers, in order.
    pub fn entries(&self) -> (r: &Vec<(String, String)>)
        ensures
            header_views(r@) == self@,
            text::ascending(ordered::keys(self@)),
    {
        proof {
            use_type_invariant(&*self);
        }
        &self.entries
    }

    /// Gives `name` the value `value`, in place of any value that it had.
    pub fn insert(&mut self, name: String, value: String)
        ensures
            text::ascending(ordered::keys(final(self)@)),
            forall|h: HeaderView|
                final(self)@.contains(h) <==> (if h.0 == name@ {
                    h.1 == value@
                } else {
                    old(self)@.contains(h)
                }),
    {
        proof {
            use_type_invariant(&*self);
        }
        let mut entries: Vec<(String, String)> = Vec::new();
        std::mem::swap(&mut entries, &mut self.entries);
        let ghost before = header_views(entries@);
        let ghost names = ordered::keys(before);
        let ghost k = name@;
        let ghost v = value@;
        let mut i: usize = 0;
        let mut same: bool = false;
        while i < entries.len()
            invariant_except_break
                !same,
            invariant
                i <= entries@.len(),
                before == header_views(entries@),
                names == ordered::keys(before),
                text::ascending(names),
                name@ == k,
                forall|j: int| 0 <= j < i ==> text::precedes(#[trigger] names[j], k),
            ensures
                same ==> i < entries@.len() && names[i as int] == k,
                !same && i < entries@.len() ==> text::precedes(k, names[i as int]),
            decreases entries@.len() - i,
        {
            assert(names[i as int] == entries@[i as int].0@);
            match text::place_of(name.as_str(), entries[i].0.as_str()) {
                text::Place::Before => {
                    break;
                },
                text::Place::Same => {
                    same = true;
                    break;
                },
                text::Place::After => {},
            }
            i = i + 1;
        }
        if same {
            entries.set(i, (name, value));
            proof {
                let after = header_views(entries@);
                assert(after == before.update(i as int, (k, v)));
                assert(ordered::keys(after) == names);
                ordered::lemma_updated(before, i as int, k, v);
            }
        } else {
            entries.insert(i, (name, value));
            proof {
                let after = header_views(entries@);
                assert(after == before.insert(i as int, (k, v)));
                ordered::lemma_inserted(before, i as int, k, v);
            }
        }
        self.entries = entries;
    }
}

impl Clone for Headers {
    fn clone(&self) -> (r: Headers)
        ensures
            r@ == self@,
    {
        proof {
            use_type_invariant(&*self);
        }
        let mut entries: Vec<(String, String)> = Vec::new();
        let mut i: usize = 0;
        while i < self.entries.len()
            invariant
                i <= self.entries@.len(),
                header_views(entries@) == header_views(self.entries@).take(i as int),
            decreases self.entries@.len() - i,
        {
            let ghost was = entries@;
            entries.push((self.entries[i].0.clone(), self.entries[i].1.clone()));
            proof {
                let all = header_views(self.entries@);
                assert(header_views(entries@) == header_views(was).push(all[i as int]));
                assert(all.take(i + 1) == all.take(i as int).push(all[i as int]));
            }
            i = i + 1;
        }
        assert(header_views(entries@) == header_views(self.entries@));
        Headers { entries }
    }
}

/// The views of headers stand in the places of the headers.
pub proof fn law_header_views(list: Seq<(String, String)>)
    ensures
        header_views(list).len() == list.len(),
        forall|i: int|
            0 <= i < list.len() ==> #[trigger] header_views(list)[i] == (list[i].0@, list[i].1@),
{
}

} // verus!
