//! The resource service: create, read, list, update and delete over a
//! document collection, every operation scoped by the owning user. The
//! collection is modelled as a sequence of resource values held newest-first;
//! the persistence collaborator that the running system talks to is expected
//! to honour the same contracts, which are stated here over that model.

use crate::cat::{lemma_merge_idempotent, merge, Cat, CatView, CreateCat, UpdateCat};
use crate::errors::Error;
use crate::object_id::{hex_value, to_object_id, valid_object_id_string, ObjectId, OBJECT_ID_LIMIT};
use crate::pagination::{spec_limit, spec_offset, Pagination, RequestQuery};
use crate::response::{CustomResponse, CustomResponseBuilder};
use crate::token::TokenUser;
use vstd::prelude::*;
use vstd::string::StringExecFns;

verus! {

/// The values of a sequence of stored resources.
pub open spec fn views_of(s: Seq<Cat>) -> Seq<CatView> {
    s.map(|i: int, c: Cat| c@)
}

/// Whether `a` is listed strictly before `b`: newer creation time first,
/// ties broken by the store-assigned identifier, descending.
pub open spec fn key_gt(a: CatView, b: CatView) -> bool {
    a.created_at > b.created_at || (a.created_at == b.created_at && a.id > b.id)
}

/// Whether `s` is ordered newest-first under `key_gt`.
pub open spec fn sorted_desc(s: Seq<CatView>) -> bool {
    forall|i: int, j: int| 0 <= i < j < s.len() ==> key_gt(#[trigger] s[i], #[trigger] s[j])
}

/// Whether no two resources of `s` share an identifier.
pub open spec fn unique_ids(s: Seq<CatView>) -> bool {
    forall|i: int, j: int|
        0 <= i < s.len() && 0 <= j < s.len() && i != j ==> #[trigger] s[i].id != #[trigger] s[j].id
}

/// Whether `c` is the resource `id` owned by `user`.
pub open spec fn is_match(c: CatView, user: u128, id: u128) -> bool {
    c.id == id && c.user == user
}

/// The resources of `s` owned by `user`, in the order of `s`.
pub open spec fn owned_cats(s: Seq<CatView>, user: u128) -> Seq<CatView>
    decreases s.len(),
{
    if s.len() == 0 {
        Seq::empty()
    } else {
        let rest = owned_cats(s.drop_last(), user);
        if s.last().user == user {
            rest.push(s.last())
        } else {
            rest
        }
    }
}

/// The page `[offset, offset + limit)` of `s`, clamped to what `s` holds.
pub open spec fn window(s: Seq<CatView>, offset: int, limit: int) -> Seq<CatView>
    recommends
        0 <= offset,
        0 <= limit,
{
    let lo = if offset > s.len() {
        s.len() as int
    } else {
        offset
    };
    let hi = if offset + limit > s.len() {
        s.len() as int
    } else {
        offset + limit
    };
    s.subrange(lo, hi)
}

/// The first resource of `s` matching `{id, user}`, where one exists.
pub open spec fn find_owned(s: Seq<CatView>, user: u128, id: u128) -> Option<CatView>
    decreases s.len(),
{
    if s.len() == 0 {
        None
    } else if is_match(s[0], user, id) {
        Some(s[0])
    } else {
        find_owned(s.drop_first(), user, id)
    }
}

/// `s` without its first resource matching `{id, user}`.
pub open spec fn remove_owned(s: Seq<CatView>, user: u128, id: u128) -> Seq<CatView>
    decreases s.len(),
{
    if s.len() == 0 {
        Seq::empty()
    } else if is_match(s[0], user, id) {
        s.drop_first()
    } else {
        seq![s[0]] + remove_owned(s.drop_first(), user, id)
    }
}

/// `s` with `patch` merged into its first resource matching `{id, user}`.
pub open spec fn update_owned(
    s: Seq<CatView>,
    user: u128,
    id: u128,
    patch: Option<Seq<char>>,
) -> Seq<CatView>
    decreases s.len(),
{
    if s.len() == 0 {
        Seq::empty()
    } else if is_match(s[0], user, id) {
        seq![merge(s[0], patch)] + s.drop_first()
    } else {
        seq![s[0]] + update_owned(s.drop_first(), user, id, patch)
    }
}

/// Where a new resource is listed: before the first one it outranks, at the
/// end where it outranks none.
pub open spec fn insert_pos(s: Seq<CatView>, c: CatView) -> int
    decreases s.len(),
{
    if s.len() == 0 {
        0
    } else if key_gt(c, s[0]) {
        0
    } else {
        1 + insert_pos(s.drop_first(), c)
    }
}

/// `s` with `c` listed in order.
pub open spec fn insert_sorted(s: Seq<CatView>, c: CatView) -> Seq<CatView> {
    s.insert(insert_pos(s, c), c)
}

/// What the insertion position promises: nothing before it is outranked by
/// `c`, and whatever stands at it is.
pub proof fn lemma_insert_pos_props(s: Seq<CatView>, c: CatView)
    ensures
        0 <= insert_pos(s, c) <= s.len(),
        forall|k: int| 0 <= k < insert_pos(s, c) ==> !key_gt(c, #[trigger] s[k]),
        insert_pos(s, c) < s.len() ==> key_gt(c, s[insert_pos(s, c)]),
    decreases s.len(),
{
    if s.len() > 0 && !key_gt(c, s[0]) {
        let rest = s.drop_first();
        lemma_insert_pos_props(rest, c);
        let pos = insert_pos(s, c);
        assert forall|k: int| 0 <= k < pos implies !key_gt(c, #[trigger] s[k]) by {
            if k > 0 {
                assert(s[k] == rest[k - 1]);
            }
        }
        if pos < s.len() {
            assert(s[pos] == rest[pos - 1]);
        }
    }
}

/// The insertion position is the one place bounded by its neighbours: no
/// earlier resource is outranked by `c`, and the one at the position is.
pub proof fn lemma_insert_pos_at(s: Seq<CatView>, c: CatView, pos: int)
    requires
        0 <= pos <= s.len(),
        forall|k: int| 0 <= k < pos ==> !key_gt(c, #[trigger] s[k]),
        pos == s.len() || key_gt(c, s[pos]),
    ensures
        insert_pos(s, c) == pos,
    decreases pos,
{
    if pos == 0 {
        if s.len() > 0 {
            assert(key_gt(c, s[0]));
        }
    } else {
        assert(!key_gt(c, s[0]));
        let rest = s.drop_first();
        assert forall|k: int| 0 <= k < pos - 1 implies !key_gt(c, #[trigger] rest[k]) by {
            assert(rest[k] == s[k + 1]);
        }
        if pos < s.len() {
            assert(rest[pos - 1] == s[pos]);
        }
        lemma_insert_pos_at(rest, c, pos - 1);
    }
}

/// Two resources with different identifiers are strictly ordered one way or
/// the other.
pub proof fn lemma_key_total(a: CatView, b: CatView)
    requires
        a.id != b.id,
    ensures
        key_gt(a, b) || key_gt(b, a),
{
}

/// Listing a resource with a fresh identifier in order keeps the sequence
/// sorted and its identifiers unique.
pub proof fn lemma_insert_sorted_wf(s: Seq<CatView>, c: CatView)
    requires
        sorted_desc(s),
        unique_ids(s),
        forall|i: int| 0 <= i < s.len() ==> (#[trigger] s[i]).id != c.id,
    ensures
        sorted_desc(insert_sorted(s, c)),
        unique_ids(insert_sorted(s, c)),
        insert_sorted(s, c).len() == s.len() + 1,
{
    lemma_insert_pos_props(s, c);
    let pos = insert_pos(s, c);
    let t = insert_sorted(s, c);
    s.insert_ensures(pos, c);
    assert forall|k: int| 0 <= k < pos implies key_gt(#[trigger] s[k], c) by {
        lemma_no_outrank_before_pos(s, c, k);
    }
    assert forall|i: int, j: int| 0 <= i < j < t.len() implies key_gt(#[trigger] t[i], #[trigger] t[j]) by {
        if i < pos {
            assert(t[i] == s[i]);
        } else if i == pos {
            assert(t[i] == c);
        } else {
            assert(t[i] == s[i - 1]);
        }
        if j < pos {
            assert(t[j] == s[j]);
        } else if j == pos {
            assert(t[j] == c);
        } else {
            assert(t[j] == s[j - 1]);
        }
        if i == pos && j > pos {
            assert(pos < s.len());
            assert(key_gt(c, s[pos]));
            if j - 1 > pos {
                assert(key_gt(s[pos], s[j - 1]));
                lemma_key_gt_transitive(c, s[pos], s[j - 1]);
            }
        }
    }
    assert forall|i: int, j: int|
        0 <= i < t.len() && 0 <= j < t.len() && i != j implies (#[trigger] t[i]).id != (
    #[trigger] t[j]).id by {
        if i < pos {
            assert(t[i] == s[i]);
        } else if i == pos {
            assert(t[i] == c);
        } else {
            assert(t[i] == s[i - 1]);
        }
        if j < pos {
            assert(t[j] == s[j]);
        } else if j == pos {
            assert(t[j] == c);
        } else {
            assert(t[j] == s[j - 1]);
        }
    }
}

/// Order under `key_gt` carries across a middle resource.
pub proof fn lemma_key_gt_transitive(a: CatView, b: CatView, c: CatView)
    requires
        key_gt(a, b),
        key_gt(b, c),
    ensures
        key_gt(a, c),
{
}

/// Before the insertion position every resource outranks the new one, as
/// long as no identifier repeats.
proof fn lemma_no_outrank_before_pos(s: Seq<CatView>, c: CatView, k: int)
    requires
        0 <= k < insert_pos(s, c),
        insert_pos(s, c) <= s.len(),
        forall|i: int| 0 <= i < s.len() ==> (#[trigger] s[i]).id != c.id,
    ensures
        key_gt(s[k], c),
    decreases k,
{
    assert(!key_gt(c, s[0]));
    if k == 0 {
        lemma_key_total(c, s[0]);
    } else {
        let rest = s.drop_first();
        assert forall|i: int| 0 <= i < rest.len() implies (#[trigger] rest[i]).id != c.id by {
            assert(rest[i] == s[i + 1]);
        }
        lemma_no_outrank_before_pos(rest, c, k - 1);
        assert(rest[k - 1] == s[k]);
    }
}

/// Every resource the listing returns is owned by the queried user.
pub proof fn lemma_owned_cats_owner(s: Seq<CatView>, user: u128)
    ensures
        forall|j: int|
            0 <= j < owned_cats(s, user).len() ==> (#[trigger] owned_cats(s, user)[j]).user
                == user,
        owned_cats(s, user).len() <= s.len(),
    decreases s.len(),
{
    if s.len() > 0 {
        lemma_owned_cats_owner(s.drop_last(), user);
    }
}

/// Where no resource matches `{id, user}`, lookup finds nothing and neither
/// removal nor update changes anything: an id owned by another user and a
/// wholly absent id are indistinguishable.
pub proof fn lemma_no_match_unchanged(
    s: Seq<CatView>,
    user: u128,
    id: u128,
    patch: Option<Seq<char>>,
)
    requires
        forall|i: int| 0 <= i < s.len() ==> !is_match(#[trigger] s[i], user, id),
    ensures
        find_owned(s, user, id) is None,
        remove_owned(s, user, id) == s,
        update_owned(s, user, id, patch) == s,
    decreases s.len(),
{
    if s.len() > 0 {
        let rest = s.drop_first();
        assert forall|i: int| 0 <= i < rest.len() implies !is_match(#[trigger] rest[i], user, id) by {
            assert(rest[i] == s[i + 1]);
        }
        lemma_no_match_unchanged(rest, user, id, patch);
        assert(seq![s[0]] + rest =~= s);
    }
}

/// The values of a sequence are unchanged by pushing on both levels.
proof fn lemma_views_push(s: Seq<Cat>, c: Cat)
    ensures
        views_of(s.push(c)) == views_of(s).push(c@),
{
    assert(views_of(s.push(c)) =~= views_of(s).push(c@));
}

/// Taking values commutes with inserting a resource.
proof fn lemma_views_insert(s: Seq<Cat>, i: int, c: Cat)
    requires
        0 <= i <= s.len(),
    ensures
        views_of(s.insert(i, c)) == views_of(s).insert(i, c@),
    decreases s.len(),
{
    s.insert_ensures(i, c);
    views_of(s).insert_ensures(i, c@);
    assert(views_of(s.insert(i, c)) =~= views_of(s).insert(i, c@));
}

/// Taking values commutes with removing a resource.
proof fn lemma_views_remove(s: Seq<Cat>, i: int)
    requires
        0 <= i < s.len(),
    ensures
        views_of(s.remove(i)) == views_of(s).remove(i),
{
    s.remove_ensures(i);
    views_of(s).remove_ensures(i);
    assert(views_of(s.remove(i)) =~= views_of(s).remove(i));
}

/// Removing any resource keeps the sequence sorted, its identifiers unique
/// and below the bound.
proof fn lemma_wf_remove(s: Seq<CatView>, idx: int, bound: u128)
    requires
        sorted_desc(s),
        unique_ids(s),
        0 <= idx < s.len(),
        forall|i: int| 0 <= i < s.len() ==> (#[trigger] s[i]).id < bound,
    ensures
        sorted_desc(s.remove(idx)),
        unique_ids(s.remove(idx)),
        forall|i: int| 0 <= i < s.remove(idx).len() ==> (#[trigger] s.remove(idx)[i]).id < bound,
{
    s.remove_ensures(idx);
    let t = s.remove(idx);
    assert forall|i: int, j: int| 0 <= i < j < t.len() implies key_gt(#[trigger] t[i], #[trigger] t[j]) by {
        if i < idx {
            assert(t[i] == s[i]);
        } else {
            assert(t[i] == s[i + 1]);
        }
        if j < idx {
            assert(t[j] == s[j]);
        } else {
            assert(t[j] == s[j + 1]);
        }
    }
    assert forall|i: int, j: int|
        0 <= i < t.len() && 0 <= j < t.len() && i != j implies (#[trigger] t[i]).id != (
    #[trigger] t[j]).id by {
        if i < idx {
            assert(t[i] == s[i]);
        } else {
            assert(t[i] == s[i + 1]);
        }
        if j < idx {
            assert(t[j] == s[j]);
        } else {
            assert(t[j] == s[j + 1]);
        }
    }
    assert forall|i: int| 0 <= i < t.len() implies (#[trigger] t[i]).id < bound by {
        if i < idx {
            assert(t[i] == s[i]);
        } else {
            assert(t[i] == s[i + 1]);
        }
    }
}

/// Replacing a resource with one of the same identifier and creation time
/// keeps the sequence sorted, its identifiers unique and below the bound.
proof fn lemma_wf_update(s: Seq<CatView>, idx: int, c: CatView, bound: u128)
    requires
        sorted_desc(s),
        unique_ids(s),
        0 <= idx < s.len(),
        c.id == s[idx].id,
        c.created_at == s[idx].created_at,
        forall|i: int| 0 <= i < s.len() ==> (#[trigger] s[i]).id < bound,
    ensures
        sorted_desc(s.update(idx, c)),
        unique_ids(s.update(idx, c)),
        forall|i: int| 0 <= i < s.update(idx, c).len() ==> (#[trigger] s.update(idx, c)[i]).id
            < bound,
{
    let t = s.update(idx, c);
    assert forall|i: int, j: int| 0 <= i < j < t.len() implies key_gt(#[trigger] t[i], #[trigger] t[j]) by {
        assert(key_gt(s[i], s[j]));
    }
    assert forall|i: int, j: int|
        0 <= i < t.len() && 0 <= j < t.len() && i != j implies (#[trigger] t[i]).id != (
    #[trigger] t[j]).id by {
        assert(s[i].id != s[j].id);
    }
}

/// Identifiers below a bound stay below it when a fresh one below it is
/// listed in order.
proof fn lemma_insert_sorted_bound(s: Seq<CatView>, c: CatView, bound: u128)
    requires
        forall|i: int| 0 <= i < s.len() ==> (#[trigger] s[i]).id < bound,
        c.id < bound,
    ensures
        forall|i: int|
            0 <= i < insert_sorted(s, c).len() ==> (#[trigger] insert_sorted(s, c)[i]).id < bound,
{
    lemma_insert_pos_props(s, c);
    let pos = insert_pos(s, c);
    s.insert_ensures(pos, c);
    let t = insert_sorted(s, c);
    assert forall|i: int| 0 <= i < t.len() implies (#[trigger] t[i]).id < bound by {
        if i < pos {
            assert(t[i] == s[i]);
        } else if i == pos {
            assert(t[i] == c);
        } else {
            assert(t[i] == s[i - 1]);
        }
    }
}

/// Where the first match sits at `idx`, lookup returns it, removal drops
/// exactly it, and update merges exactly into it.
pub proof fn lemma_first_match_at(
    s: Seq<CatView>,
    user: u128,
    id: u128,
    patch: Option<Seq<char>>,
    idx: int,
)
    requires
        0 <= idx < s.len(),
        is_match(s[idx], user, id),
        forall|k: int| 0 <= k < idx ==> !is_match(#[trigger] s[k], user, id),
    ensures
        find_owned(s, user, id) == Some(s[idx]),
        remove_owned(s, user, id) == s.remove(idx),
        update_owned(s, user, id, patch) == s.update(idx, merge(s[idx], patch)),
    decreases idx,
{
    s.remove_ensures(idx);
    if idx == 0 {
        assert(remove_owned(s, user, id) == s.drop_first());
        assert(s.drop_first() =~= s.remove(0));
        assert(seq![merge(s[0], patch)] + s.drop_first() =~= s.update(0, merge(s[0], patch)));
    } else {
        assert(!is_match(s[0], user, id));
        let rest = s.drop_first();
        assert forall|k: int| 0 <= k < idx - 1 implies !is_match(#[trigger] rest[k], user, id) by {
            assert(rest[k] == s[k + 1]);
        }
        assert(rest[idx - 1] == s[idx]);
        lemma_first_match_at(rest, user, id, patch, idx - 1);
        assert(seq![s[0]] + rest.remove(idx - 1) =~= s.remove(idx));
        assert(seq![s[0]] + rest.update(idx - 1, merge(s[idx], patch)) =~= s.update(
            idx,
            merge(s[idx], patch),
        ));
    }
}

/// Every resource of the listing stands somewhere in the store.
proof fn lemma_owned_cats_membership(s: Seq<CatView>, user: u128)
    ensures
        forall|j: int|
            #![trigger owned_cats(s, user)[j]]
            0 <= j < owned_cats(s, user).len() ==> exists|i: int|
                0 <= i < s.len() && owned_cats(s, user)[j] == #[trigger] s[i],
    decreases s.len(),
{
    if s.len() > 0 {
        let pre = s.drop_last();
        lemma_owned_cats_membership(pre, user);
        let own = owned_cats(s, user);
        let ownp = owned_cats(pre, user);
        assert forall|j: int| #![trigger own[j]] 0 <= j < own.len() implies exists|i: int|
            0 <= i < s.len() && own[j] == #[trigger] s[i] by {
            if s.last().user == user && j == own.len() - 1 {
                assert(0 <= s.len() - 1 < s.len() && own[j] == s[s.len() - 1]);
            } else {
                assert(own[j] == ownp[j]);
                let i = choose|i: int| 0 <= i < pre.len() && ownp[j] == pre[i];
                assert(0 <= i < s.len() && own[j] == s[i]);
            }
        }
    }
}

/// A user's listing of a store held newest-first is itself newest-first.
pub proof fn lemma_owned_cats_sorted(s: Seq<CatView>, user: u128)
    requires
        sorted_desc(s),
    ensures
        sorted_desc(owned_cats(s, user)),
    decreases s.len(),
{
    if s.len() > 0 {
        let pre = s.drop_last();
        lemma_owned_cats_sorted(pre, user);
        if s.last().user == user {
            lemma_owned_cats_membership(pre, user);
            let own = owned_cats(s, user);
            let ownp = owned_cats(pre, user);
            assert forall|i: int, j: int| 0 <= i < j < own.len() implies key_gt(
                #[trigger] own[i],
                #[trigger] own[j],
            ) by {
                if j < own.len() - 1 {
                    assert(own[i] == ownp[i] && own[j] == ownp[j]);
                } else {
                    assert(own[i] == ownp[i]);
                    let k = choose|k: int| 0 <= k < pre.len() && ownp[i] == pre[k];
                    assert(pre[k] == s[k]);
                    assert(key_gt(s[k], s[s.len() - 1]));
                }
            }
        }
    }
}

/// The page a list request answers with is ordered newest-first, ties broken
/// by the store-assigned identifier, descending.
pub proof fn lemma_list_page_sorted(s: Seq<CatView>, user: u128, offset: int, limit: int)
    requires
        sorted_desc(s),
        0 <= offset,
        0 <= limit,
    ensures
        sorted_desc(window(owned_cats(s, user), offset, limit)),
{
    lemma_owned_cats_sorted(s, user);
    let own = owned_cats(s, user);
    let w = window(own, offset, limit);
    let lo = if offset > own.len() {
        own.len() as int
    } else {
        offset
    };
    assert forall|i: int, j: int| 0 <= i < j < w.len() implies key_gt(
        #[trigger] w[i],
        #[trigger] w[j],
    ) by {
        assert(w[i] == own[lo + i] && w[j] == own[lo + j]);
    }
}

/// A listing never crosses users: whatever the store holds and whatever page
/// is asked for, every resource of the page belongs to the queried user.
pub proof fn lemma_list_scoped_to_user(s: Seq<CatView>, user: u128, offset: int, limit: int)
    requires
        0 <= offset,
        0 <= limit,
    ensures
        forall|j: int|
            0 <= j < window(owned_cats(s, user), offset, limit).len() ==> (#[trigger] window(
                owned_cats(s, user),
                offset,
                limit,
            )[j]).user == user,
{
    lemma_owned_cats_owner(s, user);
    let own = owned_cats(s, user);
    let w = window(own, offset, limit);
    let lo = if offset > own.len() {
        own.len() as int
    } else {
        offset
    };
    assert forall|j: int| 0 <= j < w.len() implies (#[trigger] w[j]).user == user by {
        assert(w[j] == own[lo + j]);
    }
}

/// An id that belongs to another user behaves exactly like a wholly absent
/// one: lookup finds nothing, and neither removal nor update changes the
/// store — so the caller sees the same not-found answer in both cases.
pub proof fn lemma_cross_user_indistinguishable(
    s: Seq<CatView>,
    user: u128,
    id: u128,
    patch: Option<Seq<char>>,
)
    requires
        forall|i: int| 0 <= i < s.len() && (#[trigger] s[i]).id == id ==> s[i].user != user,
    ensures
        find_owned(s, user, id) is None,
        remove_owned(s, user, id) == s,
        update_owned(s, user, id, patch) == s,
{
    assert forall|i: int| 0 <= i < s.len() implies !is_match(#[trigger] s[i], user, id) by {}
    lemma_no_match_unchanged(s, user, id, patch);
}

/// A partial update is idempotent: applying the same patch twice leaves the
/// store exactly as applying it once did.
pub proof fn lemma_update_idempotent(s: Seq<CatView>, user: u128, id: u128, patch: Option<Seq<char>>)
    ensures
        update_owned(update_owned(s, user, id, patch), user, id, patch) == update_owned(
            s,
            user,
            id,
            patch,
        ),
    decreases s.len(),
{
    let u1 = update_owned(s, user, id, patch);
    if s.len() == 0 {
        assert(update_owned(u1, user, id, patch) =~= u1);
    } else if is_match(s[0], user, id) {
        lemma_merge_idempotent(s[0], patch);
        assert(u1[0] == merge(s[0], patch));
        assert(is_match(u1[0], user, id));
        assert(u1.drop_first() =~= s.drop_first());
        assert(update_owned(u1, user, id, patch) =~= u1);
    } else {
        let rest = s.drop_first();
        lemma_update_idempotent(rest, user, id, patch);
        assert(u1[0] == s[0]);
        assert(!is_match(u1[0], user, id));
        assert(u1.drop_first() =~= update_owned(rest, user, id, patch));
        assert(update_owned(u1, user, id, patch) =~= seq![u1[0]] + update_owned(
            u1.drop_first(),
            user,
            id,
            patch,
        ));
        assert(update_owned(u1, user, id, patch) =~= u1);
    }
}

/// Round trip: a resource created under a fresh identifier is found again
/// under that identifier, by its owner, exactly as it was created — same id,
/// same owner, same name.
pub proof fn lemma_create_then_get(s: Seq<CatView>, c: CatView)
    requires
        forall|i: int| 0 <= i < s.len() ==> (#[trigger] s[i]).id != c.id,
    ensures
        find_owned(insert_sorted(s, c), c.user, c.id) == Some(c),
{
    lemma_insert_pos_props(s, c);
    let pos = insert_pos(s, c);
    s.insert_ensures(pos, c);
    let t = insert_sorted(s, c);
    assert(t[pos] == c);
    assert forall|k: int| 0 <= k < pos implies !is_match(#[trigger] t[k], c.user, c.id) by {
        assert(t[k] == s[k]);
    }
    lemma_first_match_at(t, c.user, c.id, None::<Seq<char>>, pos);
}

/// A fresh resource value.
pub open spec fn new_cat_view(id: u128, user: u128, name: Seq<char>, created_at: u64) -> CatView {
    CatView { id, user, name, created_at }
}

/// Whether `a` is listed before `b`, decided executably.
fn key_gt_exec(a: &Cat, b: &Cat) -> (r: bool)
    ensures
        r == key_gt(a@, b@),
{
    a.created_at > b.created_at || (a.created_at == b.created_at && a.id.value > b.id.value)
}

/// The document collection holding every user's resources, newest first.
/// Identifiers are store-assigned from a counter that never repeats.
pub struct CatStore {
    pub cats: Vec<Cat>,
    pub next_id: u128,
}

impl View for CatStore {
    type V = Seq<CatView>;

    open spec fn view(&self) -> Seq<CatView> {
        views_of(self.cats@)
    }
}

impl CatStore {
    /// The store's invariant: resources are listed newest first, no
    /// identifier repeats, and every identifier lies below the counter.
    pub open spec fn wf(&self) -> bool {
        &&& sorted_desc(self@)
        &&& unique_ids(self@)
        &&& (forall|i: int| 0 <= i < self@.len() ==> (#[trigger] self@[i]).id < self.next_id)
        &&& self.next_id <= OBJECT_ID_LIMIT
    }

    /// An empty store.
    pub fn new() -> (s: CatStore)
        ensures
            s.wf(),
            s@ == Seq::<CatView>::empty(),
            s.next_id == 1,
    {
        let s = CatStore { cats: Vec::new(), next_id: 1 };
        proof {
            assert(s@ =~= Seq::<CatView>::empty());
        }
        s
    }

    /// The index of the first resource matching `{id, user}`, where one
    /// exists.
    fn position_of(&self, user: ObjectId, id: ObjectId) -> (r: Option<usize>)
        ensures
            r matches Some(i) ==> i < self@.len() && is_match(self@[i as int], user.value, id.value)
                && (forall|k: int| 0 <= k < i ==> !is_match(#[trigger] self@[k], user.value, id.value)),
            r is None ==> forall|k: int|
                0 <= k < self@.len() ==> !is_match(#[trigger] self@[k], user.value, id.value),
    {
        let mut i: usize = 0;
        while i < self.cats.len()
            invariant
                i <= self.cats.len(),
                forall|k: int| 0 <= k < i ==> !is_match(#[trigger] self@[k], user.value, id.value),
            decreases self.cats.len() - i,
        {
            let c = &self.cats[i];
            if c.id.value == id.value && c.user.value == user.value {
                return Some(i);
            }
            i = i + 1;
        }
        None
    }

    /// Lists `cat` in order. The caller hands over a fresh identifier.
    fn insert_in_order(&mut self, cat: Cat)
        requires
            sorted_desc(old(self)@),
            unique_ids(old(self)@),
            forall|i: int| 0 <= i < old(self)@.len() ==> (#[trigger] old(self)@[i]).id != cat@.id,
        ensures
            final(self)@ == insert_sorted(old(self)@, cat@),
            final(self).next_id == old(self).next_id,
    {
        let mut idx: usize = 0;
        while idx < self.cats.len() && !key_gt_exec(&cat, &self.cats[idx])
            invariant
                idx <= self.cats.len(),
                self.cats@ == old(self).cats@,
                self.next_id == old(self).next_id,
                forall|k: int| 0 <= k < idx ==> !key_gt(cat@, #[trigger] self@[k]),
            decreases self.cats.len() - idx,
        {
            idx = idx + 1;
        }
        proof {
            lemma_insert_pos_at(self@, cat@, idx as int);
            lemma_views_insert(self.cats@, idx as int, cat);
        }
        self.cats.insert(idx, cat);
    }

    /// Creates a resource owned by `user`: validates that the name is
    /// present, assigns a fresh identifier, stamps `now`, and answers 201
    /// with the created resource. One store insert, nothing else.
    pub fn create_cat(&mut self, user: TokenUser, payload: CreateCat, now: u64) -> (r: Result<
        CustomResponse<Cat>,
        Error,
    >)
        requires
            old(self).wf(),
        ensures
            final(self).wf(),
            payload.name@.len() == 0 ==> (r matches Err(e) && e matches Error::ValidationError(m)
                && m@ == "name is required"@ && final(self)@ == old(self)@ && final(self).next_id
                == old(self).next_id),
            payload.name@.len() > 0 && old(self).next_id == OBJECT_ID_LIMIT ==> (r matches Err(e)
                && e == Error::StoreFailure && final(self)@ == old(self)@ && final(self).next_id
                == old(self).next_id),
            payload.name@.len() > 0 && old(self).next_id < OBJECT_ID_LIMIT ==> (r matches Ok(resp)
                && resp.status_code == 201 && resp.pagination is None && (resp.body matches Some(
                cat,
            ) && cat@ == new_cat_view(old(self).next_id, user.id.value, payload.name@, now)
                && final(self)@ == insert_sorted(old(self)@, cat@) && final(self).next_id == old(
                self,
            ).next_id + 1)),
    {
        if payload.name.as_str().is_empty() {
            return Err(Error::ValidationError(String::from_str("name is required")));
        }
        if self.next_id == OBJECT_ID_LIMIT {
            return Err(Error::StoreFailure);
        }
        let id = ObjectId { value: self.next_id };
        self.next_id = self.next_id + 1;
        let cat = Cat { id, user: user.id, name: payload.name, created_at: now };
        let created = cat.clone();
        proof {
            lemma_insert_sorted_wf(self@, cat@);
            lemma_insert_sorted_bound(self@, cat@, self.next_id);
        }
        self.insert_in_order(cat);
        Ok(CustomResponseBuilder::new().body(created).status_code(201).build())
    }

    /// Looks the resource `id` up for `user`. A resource of another user is
    /// answered exactly as an absent one: not found.
    pub fn get_cat_by_id(&self, user: TokenUser, id: &str) -> (r: Result<Cat, Error>)
        ensures
            !valid_object_id_string(id@) ==> (r matches Err(e) && e matches Error::ValidationError(
                m,
            ) && m@ == "invalid object id"@),
            valid_object_id_string(id@) ==> (find_owned(
                self@,
                user.id.value,
                hex_value(id@) as u128,
            ) matches Some(c) ==> (r matches Ok(cat) && cat@ == c)),
            valid_object_id_string(id@) && find_owned(
                self@,
                user.id.value,
                hex_value(id@) as u128,
            ) is None ==> (r matches Err(e) && e == Error::NotFound),
    {
        let cat_id = match to_object_id(id) {
            Ok(oid) => oid,
            Err(e) => {
                return Err(e);
            },
        };
        match self.position_of(user.id, cat_id) {
            Some(i) => {
                proof {
                    lemma_first_match_at(
                        self@,
                        user.id.value,
                        cat_id.value,
                        None::<Seq<char>>,
                        i as int,
                    );
                }
                Ok(self.cats[i].clone())
            },
            None => {
                proof {
                    lemma_no_match_unchanged(
                        self@,
                        user.id.value,
                        cat_id.value,
                        None::<Seq<char>>,
                    );
                }
                Err(Error::NotFound)
            },
        }
    }

    /// Deletes the resource `id` of `user` and answers 204 with no body;
    /// where nothing was removed, answers not found — for a resource of
    /// another user exactly as for an absent one.
    pub fn remove_cat_by_id(&mut self, user: TokenUser, id: &str) -> (r: Result<
        CustomResponse<()>,
        Error,
    >)
        requires
            old(self).wf(),
        ensures
            final(self).wf(),
            final(self).next_id == old(self).next_id,
            !valid_object_id_string(id@) ==> (r matches Err(e) && e matches Error::ValidationError(
                m,
            ) && m@ == "invalid object id"@ && final(self)@ == old(self)@),
            valid_object_id_string(id@) && find_owned(
                old(self)@,
                user.id.value,
                hex_value(id@) as u128,
            ) is Some ==> (r matches Ok(resp) && resp.status_code == 204 && resp.body is None
                && resp.pagination is None && final(self)@ == remove_owned(
                old(self)@,
                user.id.value,
                hex_value(id@) as u128,
            )),
            valid_object_id_string(id@) && find_owned(
                old(self)@,
                user.id.value,
                hex_value(id@) as u128,
            ) is None ==> (r matches Err(e) && e == Error::NotFound && final(self)@ == old(self)@),
    {
        let cat_id = match to_object_id(id) {
            Ok(oid) => oid,
            Err(e) => {
                return Err(e);
            },
        };
        match self.position_of(user.id, cat_id) {
            Some(i) => {
                proof {
                    lemma_first_match_at(
                        self@,
                        user.id.value,
                        cat_id.value,
                        None::<Seq<char>>,
                        i as int,
                    );
                    lemma_wf_remove(self@, i as int, self.next_id);
                    lemma_views_remove(self.cats@, i as int);
                }
                let _removed = self.cats.remove(i);
                Ok(CustomResponseBuilder::<()>::new().status_code(204).build())
            },
            None => {
                proof {
                    lemma_no_match_unchanged(
                        self@,
                        user.id.value,
                        cat_id.value,
                        None::<Seq<char>>,
                    );
                }
                Err(Error::NotFound)
            },
        }
    }

    /// Merges a partial update into the resource `id` of `user` and answers
    /// with the post-update resource. Only supplied fields change; a
    /// resource of another user is answered exactly as an absent one.
    pub fn update_cat_by_id(&mut self, user: TokenUser, id: &str, payload: UpdateCat) -> (r:
        Result<Cat, Error>)
        requires
            old(self).wf(),
        ensures
            final(self).wf(),
            final(self).next_id == old(self).next_id,
            !valid_object_id_string(id@) ==> (r matches Err(e) && e matches Error::ValidationError(
                m,
            ) && m@ == "invalid object id"@ && final(self)@ == old(self)@),
            valid_object_id_string(id@) ==> (find_owned(
                old(self)@,
                user.id.value,
                hex_value(id@) as u128,
            ) matches Some(c) ==> (r matches Ok(cat) && cat@ == merge(c, payload@) && final(self)@
                == update_owned(old(self)@, user.id.value, hex_value(id@) as u128, payload@))),
            valid_object_id_string(id@) && find_owned(
                old(self)@,
                user.id.value,
                hex_value(id@) as u128,
            ) is None ==> (r matches Err(e) && e == Error::NotFound && final(self)@ == old(self)@),
    {
        let cat_id = match to_object_id(id) {
            Ok(oid) => oid,
            Err(e) => {
                return Err(e);
            },
        };
        match self.position_of(user.id, cat_id) {
            Some(i) => {
                proof {
                    lemma_first_match_at(
                        self@,
                        user.id.value,
                        cat_id.value,
                        payload@,
                        i as int,
                    );
                }
                let ghost s0 = self@;
                let removed = self.cats.remove(i);
                let merged = apply_patch(removed, &payload);
                let result = merged.clone();
                proof {
                    lemma_views_remove(old(self).cats@, i as int);
                    lemma_views_insert(self.cats@, i as int, merged);
                }
                self.cats.insert(i, merged);
                proof {
                    assert(self@ =~= s0.update(i as int, merge(s0[i as int], payload@)));
                    lemma_wf_update(
                        s0,
                        i as int,
                        merge(s0[i as int], payload@),
                        self.next_id,
                    );
                }
                Ok(result)
            },
            None => {
                proof {
                    lemma_no_match_unchanged(self@, user.id.value, cat_id.value, payload@);
                }
                Err(Error::NotFound)
            },
        }
    }

    /// Lists `user`'s resources newest first: the page the query asks for,
    /// plus pagination metadata whose total counts every resource of the
    /// user, independent of offset and limit.
    pub fn query_cats(&self, user: TokenUser, query: &RequestQuery) -> (r: Result<
        CustomResponse<Vec<Cat>>,
        Error,
    >)
        ensures
            r matches Ok(resp) && resp.status_code == 200 && (resp.body matches Some(cats)
                && views_of(cats@) == window(
                owned_cats(self@, user.id.value),
                spec_offset(*query),
                spec_limit(*query),
            )) && (resp.pagination matches Some(pm) && pm.offset as int == spec_offset(*query)
                && pm.limit as int == spec_limit(*query) && pm.total == owned_cats(
                self@,
                user.id.value,
            ).len()),
    {
        let pagination = Pagination::build_from_request_query(query);
        let ghost u = user.id.value;
        let mut matched: Vec<Cat> = Vec::new();
        let mut i: usize = 0;
        proof {
            assert(self@.take(0) =~= Seq::<CatView>::empty());
            assert(views_of(matched@) =~= Seq::<CatView>::empty());
        }
        while i < self.cats.len()
            invariant
                i <= self.cats.len(),
                views_of(matched@) == owned_cats(self@.take(i as int), u),
                u == user.id.value,
            decreases self.cats.len() - i,
        {
            proof {
                assert(self@.take(i + 1).drop_last() =~= self@.take(i as int));
                assert(self@.take(i + 1).last() == self@[i as int]);
            }
            let c = &self.cats[i];
            if c.user.value == user.id.value {
                let picked = c.clone();
                proof {
                    lemma_views_push(matched@, picked);
                }
                matched.push(picked);
            }
            i = i + 1;
        }
        proof {
            assert(self@.take(self.cats@.len() as int) =~= self@);
            lemma_owned_cats_owner(self@, u);
        }
        let ghost own = owned_cats(self@, u);
        let total: u64 = matched.len() as u64;
        let lo: u64 = if pagination.offset > total {
            total
        } else {
            pagination.offset
        };
        let remaining: u64 = total - lo;
        let take_n: u64 = if pagination.limit > remaining {
            remaining
        } else {
            pagination.limit
        };
        let hi: u64 = lo + take_n;
        let mut page: Vec<Cat> = Vec::new();
        let mut j: u64 = lo;
        proof {
            assert(views_of(page@) =~= own.subrange(lo as int, lo as int));
        }
        while j < hi
            invariant
                lo <= j <= hi,
                hi <= matched@.len(),
                views_of(matched@) == own,
                views_of(page@) == own.subrange(lo as int, j as int),
            decreases hi - j,
        {
            let c = matched[j as usize].clone();
            proof {
                lemma_views_push(page@, c);
                assert(own.subrange(lo as int, j + 1) =~= own.subrange(lo as int, j as int).push(
                    own[j as int],
                ));
            }
            page.push(c);
            j = j + 1;
        }
        proof {
            assert(own.subrange(lo as int, hi as int) =~= window(
                own,
                spec_offset(*query),
                spec_limit(*query),
            ));
        }
        let meta = pagination.count(total);
        Ok(CustomResponseBuilder::new().body(page).pagination(meta).build())
    }
}

/// Exec merge of a partial update into a resource.
fn apply_patch(c: Cat, patch: &UpdateCat) -> (r: Cat)
    ensures
        r@ == merge(c@, patch@),
{
    let Cat { id, user, name, created_at } = c;
    let new_name = match &patch.name {
        Some(n) => n.clone(),
        None => name,
    };
    Cat { id, user, name: new_name, created_at }
}

} // verus!
