//! Owned tensors and the name-indexed map that holds them.

use safetensors::Dtype;
use vstd::hash_map::StringHashMap;
use vstd::prelude::*;

verus! {

/// The element type of a tensor, `safetensors::Dtype`. It is carried through
/// and never looked into.
#[verifier::external_type_specification]
#[verifier::external_body]
pub struct ExDtype(Dtype);

/// Shape, element type and bytes of a tensor.
pub type TensorContents = (Seq<usize>, Dtype, Seq<u8>);

/// One tensor's data, owned.
pub struct Tensor {
    pub shape: Vec<usize>,
    pub dtype: Dtype,
    pub data: Vec<u8>,
}

impl View for Tensor {
    type V = TensorContents;

    open spec fn view(&self) -> TensorContents {
        (self.shape@, self.dtype, self.data@)
    }
}

/// Tensors by name. A tensor can be taken out without a copy.
pub struct TensorMap {
    index: StringHashMap<usize>,
    slots: Vec<Option<Tensor>>,
}

impl View for TensorMap {
    type V = Map<Seq<char>, Tensor>;

    closed spec fn view(&self) -> Map<Seq<char>, Tensor> {
        Map::new(
            |name: Seq<char>| self.index@.contains_key(name),
            |name: Seq<char>| self.slots@[self.index@[name] as int]->0,
        )
    }
}

impl TensorMap {
    /// Every name has a filled slot of its own.
    pub closed spec fn wf(&self) -> bool {
        &&& forall|name: Seq<char>| #[trigger]
            self.index@.contains_key(name) ==> self.index@[name] < self.slots@.len()
                && self.slots@[self.index@[name] as int] is Some
        &&& forall|a: Seq<char>, b: Seq<char>|
            #![trigger self.index@.contains_key(a), self.index@.contains_key(b)]
            self.index@.contains_key(a) && self.index@.contains_key(b) && self.index@[a]
                == self.index@[b] ==> a == b
    }

    /// What the tensors hold, by name.
    pub open spec fn contents(&self) -> Map<Seq<char>, TensorContents> {
        self@.map_values(|t: Tensor| t@)
    }

    /// The contents under a name are shape, element type and bytes of the
    /// tensor under that name.
    pub proof fn contents_by_name(&self)
        ensures
            forall|name: Seq<char>| #[trigger]
                self.contents().contains_key(name) <==> self@.contains_key(name),
            forall|name: Seq<char>| #[trigger]
                self@.contains_key(name) ==> self.contents()[name].0 == self@[name].shape@
                    && self.contents()[name].1 == self@[name].dtype && self.contents()[name].2
                    == self@[name].data@,
    {
    }

    /// A map without tensors.
    pub fn new() -> (r: Self)
        ensures
            r.wf(),
            r@ == Map::<Seq<char>, Tensor>::empty(),
    {
        let r = TensorMap { index: StringHashMap::new(), slots: Vec::new() };
        assert(r@ =~= Map::empty());
        r
    }

    /// How many tensors the map holds.
    pub fn len(&self) -> (r: usize)
        ensures
            r == self@.len(),
    {
        assert(self@.dom() =~= self.index@.dom());
        self.index.len()
    }

    /// Puts `tensor` under `name`, in place of what was there.
    pub fn insert(&mut self, name: String, tensor: Tensor)
        requires
            old(self).wf(),
        ensures
            final(self).wf(),
            final(self)@ == old(self)@.insert(name@, tensor),
    {
        let found = match self.index.get(name.as_str()) {
            Some(slot) => Some(*slot),
            None => None,
        };
        match found {
            Some(slot) => {
                self.slots.set(slot, Some(tensor));
            },
            None => {
                self.index.insert(name, self.slots.len());
                self.slots.push(Some(tensor));
            },
        }
        assert(self@ =~= old(self)@.insert(name@, tensor));
    }

    /// The tensor under `name`, if there is one.
    pub fn get(&self, name: &str) -> (r: Option<&Tensor>)
        requires
            self.wf(),
        ensures
            match r {
                Some(t) => self@.contains_key(name@) && *t == self@[name@],
                None => !self@.contains_key(name@),
            },
    {
        match self.index.get(name) {
            Some(slot) => self.slots[*slot].as_ref(),
            None => None,
        }
    }

    /// Takes the tensor under `name` out of the map, if there is one.
    pub fn remove(&mut self, name: &str) -> (r: Option<Tensor>)
        requires
            old(self).wf(),
        ensures
            final(self).wf(),
            final(self)@ == old(self)@.remove(name@),
            match r {
                Some(t) => old(self)@.contains_key(name@) && t == old(self)@[name@],
                None => !old(self)@.contains_key(name@),
            },
    {
        let found = match self.index.get(name) {
            Some(slot) => Some(*slot),
            None => None,
        };
        match found {
            Some(slot) => {
                self.index.remove(name);
                let taken = self.slots[slot].take();
                assert(self@ =~= old(self)@.remove(name@));
                taken
            },
            None => {
                assert(self@ =~= old(self)@.remove(name@));
                None
            },
        }
    }
}

} // verus!
