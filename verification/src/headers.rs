//! The header fields of a request: a map from names to values.
use crate::bytes::bytes_eq;
use vstd::prelude::*;

verus! {

/// The map that a list of fields stands for: a later field replaces an
/// earlier one of the same name.
spec fn fields_map(fields: Seq<(Vec<u8>, Vec<u8>)>) -> Map<Seq<u8>, Seq<u8>>
    decreases fields.len(),
{
    if fields.len() == 0 {
        Map::empty()
    } else {
        fields_map(fields.drop_last()).insert(fields.last().0@, fields.last().1@)
    }
}

proof fn lemma_field_found(fields: Seq<(Vec<u8>, Vec<u8>)>, name: Seq<u8>, i: int)
    requires
        0 <= i < fields.len(),
        fields[i].0@ == name,
        forall|j: int| i < j < fields.len() ==> fields[j].0@ != name,
    ensures
        fields_map(fields).contains_key(name),
        fields_map(fields)[name] == fields[i].1@,
    decreases fields.len(),
{
    if i < fields.len() - 1 {
        lemma_field_found(fields.drop_last(), name, i);
    }
}

proof fn lemma_field_absent(fields: Seq<(Vec<u8>, Vec<u8>)>, name: Seq<u8>)
    requires
        forall|j: int| 0 <= j < fields.len() ==> fields[j].0@ != name,
    ensures
        !fields_map(fields).contains_key(name),
    decreases fields.len(),
{
    if fields.len() > 0 {
        lemma_field_absent(fields.drop_last(), name);
    }
}

/// Header fields. Names are compared byte for byte, so `Host` and `host` are
/// two names. Its view is the map from each name to its value.
#[derive(Debug, Clone)]
pub struct Headers {
    fields: Vec<(Vec<u8>, Vec<u8>)>,
}

impl View for Headers {
    type V = Map<Seq<u8>, Seq<u8>>;

    closed spec fn view(&self) -> Map<Seq<u8>, Seq<u8>> {
        fields_map(self.fields@)
    }
}

impl Headers {
    /// No fields.
    pub fn new() -> (headers: Headers)
        ensures
            headers@ == Map::<Seq<u8>, Seq<u8>>::empty(),
    {
        Headers { fields: Vec::new() }
    }

    /// Sets the field `name` to `value`, in place of any value it had.
    pub fn insert(&mut self, name: Vec<u8>, value: Vec<u8>)
        ensures
            final(self)@ == old(self)@.insert(name@, value@),
    {
        let ghost before = self.fields@;
        self.fields.push((name, value));
        assert(self.fields@.drop_last() == before);
    }

    /// The value of the field `name`, if there is such a field.
    pub fn get(&self, name: &[u8]) -> (value: Option<&Vec<u8>>)
        ensures
            match value {
                Some(found) => self@.contains_key(name@) && found@ == self@[name@],
                None => !self@.contains_key(name@),
            },
    {
        let mut i: usize = self.fields.len();
        while i > 0
            invariant
                i <= self.fields.len(),
                forall|j: int| i <= j < self.fields.len() ==> self.fields@[j].0@ != name@,
            decreases i,
        {
            i -= 1;
            if bytes_eq(self.fields[i].0.as_slice(), name) {
                proof {
                    lemma_field_found(self.fields@, name@, i as int);
                }
                return Some(&self.fields[i].1);
            }
        }
        proof {
            lemma_field_absent(self.fields@, name@);
        }
        None
    }
}

} // verus!
