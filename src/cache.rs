//! A single cached value, recomputed when its key changes.
use vstd::prelude::*;

verus! {

pub struct Cached<T: Clone> {
    pub key: String,
    pub value: Option<T>,
}

impl<T: Clone> Default for Cached<T> {
    fn default() -> (r: Self)
        ensures
            r.key@ == Seq::<char>::empty(),
            r.value is None,
    {
        Cached { key: String::new(), value: None }
    }
}

impl<T: Clone> Cached<T> {
    /// The value for `key`: the cached one where it was made for the same key,
    /// else a new one from `get_new_value`, which is then cached.
    pub fn get_or_create<F: FnOnce() -> T>(&mut self, key: String, get_new_value: F) -> (r: T)
        requires
            get_new_value.requires(()),
        ensures
            old(self).value is None || old(self).key@ != key@ ==> {
                &&& final(self).key@ == key@
                &&& final(self).value is Some
                &&& get_new_value.ensures((), final(self).value->0)
            },
            !(old(self).value is None || old(self).key@ != key@) ==> final(self).key@ == old(
                self,
            ).key@ && final(self).value == old(self).value,
            final(self).value is Some,
            cloned(final(self).value->0, r),
    {
        if self.value.is_none() || !(self.key == key) {
            self.key = key;
            self.value = Some(get_new_value());
        }
        self.value.as_ref().cloned().unwrap()
    }
}

} // verus!
