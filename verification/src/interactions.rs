//! Interactions between friends on the desktop side: the checks before one is
//! sent or shown, and the memory of those already shown, so that one
//! delivered twice (through two relay servers) is shown once.

use vstd::prelude::*;
use vstd::string::StringExecFns;

use crate::common::{content_error, InteractionContent};
use crate::identity::{decode_standard, standard_decoded};
use crate::strings::{views, StringSet};

verus! {

/// How many received interactions are remembered.
pub const SEEN_INTERACTION_LIMIT: usize = 256;

/// What `validate_content` answers: the shared validation first, then, for
/// an image, that its data is standard Base64.
pub open spec fn content_check(content: InteractionContent) -> Option<Seq<char>> {
    match content_error(content) {
        Some(e) => Some(e),
        None => match content {
            InteractionContent::Image { data, .. } => if standard_decoded(data@) is None {
                Some("Image contains invalid Base64 data"@)
            } else {
                None
            },
            _ => None,
        },
    }
}

/// Checks interaction content before it is sent or shown.
pub fn validate_content(content: &InteractionContent) -> (r: Result<(), String>)
    ensures
        r is Ok <==> content_check(*content) is None,
        r matches Err(e) ==> content_check(*content) == Some(e@),
{
    content.validate()?;
    if let InteractionContent::Image { data, .. } = content {
        if decode_standard(data.as_str()).is_err() {
            return Err("Image contains invalid Base64 data".to_owned());
        }
    }
    Ok(())
}

/// The key under which an interaction from a friend is remembered: the
/// friend id, a NUL character, and the interaction id.
pub open spec fn dedupe_key(friend_id: Seq<char>, interaction_id: Seq<char>) -> Seq<char> {
    friend_id + seq!['\0'] + interaction_id
}

/// The key under which an interaction from a friend is remembered.
pub fn dedupe_id(friend_id: &str, interaction_id: &str) -> (r: String)
    ensures
        r@ == dedupe_key(friend_id@, interaction_id@),
{
    proof {
        reveal_strlit("\0");
    }
    let mut r = friend_id.to_owned();
    r.append("\0");
    r.append(interaction_id);
    assert(r@ =~= dedupe_key(friend_id@, interaction_id@));
    r
}

/// The remembered keys after remembering `id`: it joins the end of the
/// list, and the oldest is forgotten once there are more than the limit.
pub open spec fn remembered(order: Seq<Seq<char>>, id: Seq<char>) -> Seq<Seq<char>> {
    if order.push(id).len() > SEEN_INTERACTION_LIMIT {
        order.push(id).drop_first()
    } else {
        order.push(id)
    }
}

/// The most recent interactions shown, oldest first.
pub struct SeenInteractions {
    ids: StringSet,
    order: Vec<String>,
}

impl SeenInteractions {
    /// The remembered keys, oldest first.
    pub closed spec fn order(&self) -> Seq<Seq<char>> {
        views(self.order@)
    }

    /// The remembered keys are distinct, at most the limit, and the set of
    /// them is kept beside the list.
    #[verifier::type_invariant]
    closed spec fn consistent(self) -> bool {
        &&& views(self.order@).no_duplicates()
        &&& views(self.order@).to_set() == self.ids@
        &&& self.order@.len() <= SEEN_INTERACTION_LIMIT
    }

    /// Nothing remembered.
    pub fn new() -> (r: SeenInteractions)
        ensures
            r.order() == Seq::<Seq<char>>::empty(),
    {
        let ids = StringSet::new();
        let order: Vec<String> = Vec::new();
        assert(views(order@) =~= Seq::<Seq<char>>::empty());
        assert(views(order@).to_set() =~= ids@);
        SeenInteractions { ids, order }
    }

    /// The number of remembered keys.
    pub fn len(&self) -> (r: usize)
        ensures
            r == self.order().len(),
    {
        self.order.len()
    }

    /// Remembers `id`; answers whether it was new. A key already remembered
    /// changes nothing.
    pub fn insert(&mut self, id: String) -> (r: bool)
        ensures
            r == !old(self).order().contains(id@),
            r ==> final(self).order() == remembered(old(self).order(), id@),
            !r ==> final(self).order() == old(self).order(),
            final(self).order().len() <= SEEN_INTERACTION_LIMIT,
    {
        proof {
            use_type_invariant(&*self);
        }
        if self.ids.contains(id.as_str()) {
            return false;
        }
        let mut taken = SeenInteractions::new();
        std::mem::swap(&mut taken, self);
        proof {
            use_type_invariant(&taken);
        }
        let SeenInteractions { mut ids, mut order } = taken;
        let ghost before = views(order@);
        ids.insert(id.clone());
        order.push(id);
        proof {
            assert(views(order@) =~= before.push(views(order@).last()));
            before.lemma_push_to_set_commute(views(order@).last());
            assert(views(order@).no_duplicates()) by {
                assert forall|a: int, b: int|
                    0 <= a < b < views(order@).len() implies views(order@)[a] != views(order@)[b] by {
                    if b == before.len() {
                        assert(before[a] == views(order@)[a]);
                        assert(before.to_set().contains(before[a]));
                    }
                }
            }
        }
        if order.len() > SEEN_INTERACTION_LIMIT {
            let oldest = order.remove(0);
            ids.remove(oldest.as_str());
            proof {
                let full = before.push(id@);
                assert(views(order@) =~= full.drop_first());
                assert(ids@ =~= views(order@).to_set()) by {
                    assert forall|x: Seq<char>| ids@.contains(x) == views(order@).to_set().contains(x) by {
                        if views(order@).to_set().contains(x) {
                            let k = choose|k: int| 0 <= k < views(order@).len() && views(order@)[k] == x;
                            assert(full[k + 1] == x);
                            assert(full.to_set().contains(x));
                            assert(full[0] != full[k + 1]);
                        }
                        if ids@.contains(x) {
                            assert(full.to_set().contains(x));
                            let k = choose|k: int| 0 <= k < full.len() && full[k] == x;
                            assert(k != 0);
                            assert(views(order@)[k - 1] == x);
                        }
                    }
                }
            }
        }
        *self = SeenInteractions { ids, order };
        true
    }

    /// Checks a received interaction and remembers it: `Ok(true)` when it is
    /// to be shown, `Ok(false)` when it was already shown, and the error when
    /// its content does not pass the checks (nothing is remembered then).
    pub fn receive(&mut self, friend_id: &str, interaction_id: &str, content: &InteractionContent) -> (r:
        Result<bool, String>)
        ensures
            r matches Err(e) ==> content_check(*content) == Some(e@) && final(self).order() == old(
                self,
            ).order(),
            r is Err <==> content_check(*content) is Some,
            r matches Ok(shown) ==> shown == !old(self).order().contains(
                dedupe_key(friend_id@, interaction_id@),
            ) && final(self).order() == if shown {
                remembered(old(self).order(), dedupe_key(friend_id@, interaction_id@))
            } else {
                old(self).order()
            },
    {
        validate_content(content)?;
        Ok(self.insert(dedupe_id(friend_id, interaction_id)))
    }
}

/// An interaction just shown is remembered: delivered again (through another
/// relay server), it is not shown again.
pub proof fn law_a_shown_interaction_is_not_shown_again(order: Seq<Seq<char>>, id: Seq<char>)
    ensures
        remembered(order, id).contains(id),
{
    let pushed = order.push(id);
    if pushed.len() > SEEN_INTERACTION_LIMIT {
        assert(pushed.drop_first()[pushed.len() - 2] == id);
    } else {
        assert(pushed[pushed.len() - 1] == id);
    }
}

} // verus!
