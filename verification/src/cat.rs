//! The resource type and its request payloads: a cat has a store-assigned
//! identifier, an owning user, a display name and a creation timestamp. Only
//! the name is mutable; the patch type carries nothing but the mutable
//! fields, so identifier, owner and creation timestamp cannot be updated
//! even on purpose.

use crate::object_id::ObjectId;
use vstd::prelude::*;

verus! {

/// A resource as the store holds it and as callers receive it.
pub struct Cat {
    /// Store-assigned, immutable once created.
    pub id: ObjectId,
    /// The owning user, immutable.
    pub user: ObjectId,
    /// Display name, the one mutable field.
    pub name: String,
    /// Set at creation, immutable.
    pub created_at: u64,
}

/// The mathematical value of a `Cat`.
pub ghost struct CatView {
    pub id: u128,
    pub user: u128,
    pub name: Seq<char>,
    pub created_at: u64,
}

impl View for Cat {
    type V = CatView;

    open spec fn view(&self) -> CatView {
        CatView {
            id: self.id.value,
            user: self.user.value,
            name: self.name@,
            created_at: self.created_at,
        }
    }
}

impl Clone for Cat {
    fn clone(&self) -> (r: Cat)
        ensures
            r@ == self@,
    {
        Cat {
            id: self.id,
            user: self.user,
            name: self.name.clone(),
            created_at: self.created_at,
        }
    }
}

/// Payload of a create request.
pub struct CreateCat {
    pub name: String,
}

/// Payload of a partial update: only fields present here change, and only
/// mutable fields are present at all.
pub struct UpdateCat {
    pub name: Option<String>,
}

impl View for UpdateCat {
    type V = Option<Seq<char>>;

    open spec fn view(&self) -> Option<Seq<char>> {
        match self.name {
            Some(n) => Some(n@),
            None => None,
        }
    }
}

/// The field-level merge of a partial update into a resource: supplied
/// fields change, absent fields keep their prior values, and identifier,
/// owner and creation timestamp stay as they are.
pub open spec fn merge(c: CatView, patch: Option<Seq<char>>) -> CatView {
    match patch {
        Some(n) => CatView { name: n, ..c },
        None => c,
    }
}

/// Merging the same partial update twice leaves what one merge left: the
/// second application changes nothing further.
pub proof fn lemma_merge_idempotent(c: CatView, patch: Option<Seq<char>>)
    ensures
        merge(merge(c, patch), patch) == merge(c, patch),
{
}

} // verus!
