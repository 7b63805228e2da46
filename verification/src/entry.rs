//! The lexicon row type.

use vstd::prelude::*;

verus! {

/// One row of the backing store: an English headword, its Latin root, a
/// definition, and the three modern descendants.
#[derive(Debug)]
pub struct Latin {
    pub id: i32,
    pub en: String,
    pub la: String,
    pub defn: String,
    pub fr: String,
    pub es: String,
    pub it: String,
}

impl Latin {
    /// An identical copy of the row.
    pub fn duplicate(&self) -> (r: Latin)
        ensures
            r == *self,
    {
        Latin {
            id: self.id,
            en: self.en.clone(),
            la: self.la.clone(),
            defn: self.defn.clone(),
            fr: self.fr.clone(),
            es: self.es.clone(),
            it: self.it.clone(),
        }
    }
}

} // verus!
