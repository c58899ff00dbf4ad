//! What is told of the models.

use crate::catalog::{in_common, lemma_promise_holds_everywhere, lists_models, Capabilities, Model};
use vstd::prelude::*;

verus! {

/// Whether an entry of the catalog is under this identifier.
pub open spec fn is_under(model: Model, id: Seq<char>) -> bool {
    model.id@ == id
}

/// What is told of an identifier is what all its entries have in common: an ability where each of
/// them has it, and the smallest of their limits; under the name that the first of them has.
/// Nothing is told of an identifier that no entry has.
pub proof fn lemma_common_is_exact(models: Seq<Model>, id: Seq<char>)
    ensures
        match in_common(models, id) {
            None => forall|i: int| 0 <= i < models.len() ==> !is_under(#[trigger] models[i], id),
            Some(shared) => {
                &&& shared.id == id
                &&& exists|i: int|
                    0 <= i < models.len() && is_under(#[trigger] models[i], id) && shared.name
                        == models[i].name@ && forall|j: int|
                        0 <= j < i ==> !is_under(#[trigger] models[j], id)
                &&& shared.tools <==> forall|i: int|
                    0 <= i < models.len() && is_under(#[trigger] models[i], id) ==> models[i].tools
                &&& shared.vision <==> forall|i: int|
                    0 <= i < models.len() && is_under(#[trigger] models[i], id) ==> models[i].vision
                &&& shared.reasoning <==> forall|i: int|
                    0 <= i < models.len() && is_under(#[trigger] models[i], id)
                        ==> models[i].reasoning
                &&& forall|i: int|
                    0 <= i < models.len() && is_under(#[trigger] models[i], id) ==> shared.context
                        <= models[i].context && shared.output <= models[i].output
                &&& exists|i: int|
                    0 <= i < models.len() && is_under(#[trigger] models[i], id) && shared.context
                        == models[i].context
                &&& exists|i: int|
                    0 <= i < models.len() && is_under(#[trigger] models[i], id) && shared.output
                        == models[i].output
            },
        },
    decreases models.len(),
{
    if models.len() > 0 {
        let front = models.drop_last();
        let last = models.len() - 1;
        lemma_common_is_exact(front, id);
        assert(models[last] == models.last());
        assert forall|i: int| 0 <= i < front.len() implies front[i] == #[trigger] models[i] by {
        }
        if let Some(before) = in_common(front, id) {
            let first = choose|i: int|
                0 <= i < front.len() && is_under(#[trigger] front[i], id) && before.name
                    == front[i].name@ && forall|j: int|
                    0 <= j < i ==> !is_under(#[trigger] front[j], id);
            assert(is_under(models[first], id));
            assert forall|j: int| 0 <= j < first implies !is_under(#[trigger] models[j], id) by {
                assert(!is_under(front[j], id));
            }
            let wide = choose|i: int|
                0 <= i < front.len() && is_under(#[trigger] front[i], id) && before.context
                    == front[i].context;
            assert(is_under(models[wide], id));
            let long = choose|i: int|
                0 <= i < front.len() && is_under(#[trigger] front[i], id) && before.output
                    == front[i].output;
            assert(is_under(models[long], id));
            if !before.tools {
                let i = choose|i: int|
                    0 <= i < front.len() && is_under(#[trigger] front[i], id) && !front[i].tools;
                assert(is_under(models[i], id) && !models[i].tools);
            }
            if !before.vision {
                let i = choose|i: int|
                    0 <= i < front.len() && is_under(#[trigger] front[i], id) && !front[i].vision;
                assert(is_under(models[i], id) && !models[i].vision);
            }
            if !before.reasoning {
                let i = choose|i: int|
                    0 <= i < front.len() && is_under(#[trigger] front[i], id) && !front[i].reasoning;
                assert(is_under(models[i], id) && !models[i].reasoning);
            }
            if is_under(models.last(), id) {
                assert(is_under(models[last], id));
            }
        } else {
            assert forall|i: int| 0 <= i < last implies !is_under(#[trigger] models[i], id) by {
                assert(!is_under(front[i], id));
            }
            if is_under(models.last(), id) {
                assert(is_under(models[last], id));
            }
        }
    }
}

/// Every model of the catalog is listed, and nothing else is.
pub proof fn lemma_every_model_is_listed(entries: Seq<Capabilities>, models: Seq<Model>, at: int)
    requires
        lists_models(entries, models),
    ensures
        0 <= at < models.len() ==> exists|k: int|
            0 <= k < entries.len() && (#[trigger] entries[k]).id@ == models[at].id@,
        0 <= at < entries.len() ==> exists|i: int|
            0 <= i < models.len() && is_under(#[trigger] models[i], entries[at].id@)
                && entries[at].name@ == models[i].name@,
{
    if 0 <= at < models.len() {
        lemma_promise_holds_everywhere(models, at);
        assert(in_common(models, models[at].id@) is Some);
    }
    if 0 <= at < entries.len() {
        lemma_common_is_exact(models, entries[at].id@);
        assert(in_common(models, entries[at].id@) == Some(entries[at]@));
    }
}

} // verus!
