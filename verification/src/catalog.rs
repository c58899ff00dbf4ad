//! The model catalog. It names the upstream protocol of each model per product; no protocol is
//! ever guessed from a model's name.

pub mod laws;

use crate::credential::Tier;
use crate::text::{
    comes_before, lemma_order_total, lemma_order_transitive, precedes, same_text,
};
use vstd::prelude::*;

verus! {

#[derive(Debug, Clone, Copy, PartialEq, Eq, Structural)]
pub enum Protocol {
    Responses,
    Chat,
    Messages,
}

/// The path of a protocol's interface below the product's base URL.
pub open spec fn protocol_path(protocol: Protocol) -> Seq<char> {
    match protocol {
        Protocol::Responses => "responses"@,
        Protocol::Chat => "chat/completions"@,
        Protocol::Messages => "messages"@,
    }
}

impl Protocol {
    pub fn path(self) -> (path: &'static str)
        ensures
            path@ == protocol_path(self),
    {
        match self {
            Protocol::Responses => "responses",
            Protocol::Chat => "chat/completions",
            Protocol::Messages => "messages",
        }
    }
}

/// A model as one product offers it.
#[derive(Debug, PartialEq)]
pub struct Model {
    pub tier: Tier,
    pub id: String,
    pub name: String,
    pub protocol: Protocol,
    pub tools: bool,
    pub vision: bool,
    pub reasoning: bool,
    pub context: u64,
    pub output: u64,
}

pub struct Catalog {
    pub models: Vec<Model>,
}

/// Whether a catalog entry is the one of this product with this identifier.
pub open spec fn is_entry(model: Model, tier: Tier, id: Seq<char>) -> bool {
    model.tier == tier && model.id@ == id
}

/// Whether the catalog offers this identifier in this product.
pub open spec fn offers(models: Seq<Model>, tier: Tier, id: Seq<char>) -> bool {
    exists|i: int| 0 <= i < models.len() && is_entry(#[trigger] models[i], tier, id)
}

/// The first entry from `at` on that is the one of this product with this identifier.
pub open spec fn found_from(models: Seq<Model>, tier: Tier, id: Seq<char>, at: int) -> Option<Model>
    decreases models.len() - at,
{
    if at >= models.len() {
        None
    } else if is_entry(models[at], tier, id) {
        Some(models[at])
    } else {
        found_from(models, tier, id, at + 1)
    }
}

/// The entry of this product with this identifier: the first one, should there be several.
pub open spec fn found(models: Seq<Model>, tier: Tier, id: Seq<char>) -> Option<Model> {
    found_from(models, tier, id, 0)
}

proof fn lemma_found(models: Seq<Model>, tier: Tier, id: Seq<char>, at: int)
    requires
        0 <= at <= models.len(),
        forall|i: int| 0 <= i < at ==> !is_entry(#[trigger] models[i], tier, id),
    ensures
        found_from(models, tier, id, at) is Some <==> offers(models, tier, id),
        found_from(models, tier, id, at) matches Some(model) ==> is_entry(model, tier, id),
    decreases models.len() - at,
{
    if at < models.len() && !is_entry(models[at], tier, id) {
        lemma_found(models, tier, id, at + 1);
    }
}

impl Catalog {
    /// The entry of the product with this identifier.
    pub fn find(&self, tier: Tier, id: &str) -> (model: Option<&Model>)
        ensures
            match found(self.models@, tier, id@) {
                Some(expected) => model == Some(&expected) && is_entry(expected, tier, id@),
                None => model is None,
            },
            model is Some <==> offers(self.models@, tier, id@),
    {
        proof {
            lemma_found(self.models@, tier, id@, 0);
        }
        let mut i: usize = 0;
        while i < self.models.len()
            invariant
                i <= self.models.len(),
                found(self.models@, tier, id@) == found_from(self.models@, tier, id@, i as int),
            decreases self.models.len() - i,
        {
            let model = &self.models[i];
            if model.tier == tier && same_text(model.id.as_str(), id) {
                return Some(model);
            }
            i += 1;
        }
        None
    }
}

/// What every product that offers a model has in common: the name in the first of them, and the
/// abilities and limits that all of them keep.
#[derive(Debug, PartialEq)]
pub struct Capabilities {
    pub id: String,
    pub name: String,
    pub tools: bool,
    pub vision: bool,
    pub reasoning: bool,
    pub context: u64,
    pub output: u64,
}

#[verifier::ext_equal]
pub struct CapabilitiesView {
    pub id: Seq<char>,
    pub name: Seq<char>,
    pub tools: bool,
    pub vision: bool,
    pub reasoning: bool,
    pub context: u64,
    pub output: u64,
}

impl Capabilities {
    pub open spec fn view(&self) -> CapabilitiesView {
        CapabilitiesView {
            id: self.id@,
            name: self.name@,
            tools: self.tools,
            vision: self.vision,
            reasoning: self.reasoning,
            context: self.context,
            output: self.output,
        }
    }
}

pub open spec fn lesser(left: u64, right: u64) -> u64 {
    if left <= right {
        left
    } else {
        right
    }
}

/// A model's capabilities in one product.
pub open spec fn own(model: Model) -> CapabilitiesView {
    CapabilitiesView {
        id: model.id@,
        name: model.name@,
        tools: model.tools,
        vision: model.vision,
        reasoning: model.reasoning,
        context: model.context,
        output: model.output,
    }
}

/// What is left in common with one more product.
pub open spec fn narrowed(shared: CapabilitiesView, model: Model) -> CapabilitiesView {
    CapabilitiesView {
        tools: shared.tools && model.tools,
        vision: shared.vision && model.vision,
        reasoning: shared.reasoning && model.reasoning,
        context: lesser(shared.context, model.context),
        output: lesser(shared.output, model.output),
        ..shared
    }
}

/// What all entries with this identifier have in common, if there are any.
pub open spec fn in_common(models: Seq<Model>, id: Seq<char>) -> Option<CapabilitiesView>
    decreases models.len(),
{
    if models.len() == 0 {
        None
    } else {
        let before = in_common(models.drop_last(), id);
        if models.last().id@ != id {
            before
        } else {
            match before {
                None => Some(own(models.last())),
                Some(shared) => Some(narrowed(shared, models.last())),
            }
        }
    }
}

/// Whether entries stand in the order of their identifiers, each identifier once.
pub open spec fn by_identifier(entries: Seq<Capabilities>) -> bool {
    forall|i: int, j: int|
        0 <= i < j < entries.len() ==> comes_before(
            (#[trigger] entries[i]).id@,
            (#[trigger] entries[j]).id@,
        )
}

/// Whether entries are what the models have in common: one entry for each identifier.
pub open spec fn lists_models(entries: Seq<Capabilities>, models: Seq<Model>) -> bool {
    &&& forall|k: int|
        0 <= k < entries.len() ==> in_common(models, (#[trigger] entries[k]).id@) == Some(
            entries[k]@,
        )
    &&& forall|id: Seq<char>| #[trigger]
        in_common(models, id) is Some ==> exists|k: int|
            0 <= k < entries.len() && (#[trigger] entries[k]).id@ == id
}

fn own_capabilities(model: &Model) -> (entry: Capabilities)
    ensures
        entry@ == own(*model),
{
    Capabilities {
        id: model.id.clone(),
        name: model.name.clone(),
        tools: model.tools,
        vision: model.vision,
        reasoning: model.reasoning,
        context: model.context,
        output: model.output,
    }
}

impl Capabilities {
    fn narrow(&mut self, model: &Model)
        ensures
            final(self)@ == narrowed(old(self)@, *model),
    {
        self.tools = self.tools && model.tools;
        self.vision = self.vision && model.vision;
        self.reasoning = self.reasoning && model.reasoning;
        if model.context < self.context {
            self.context = model.context;
        }
        if model.output < self.output {
            self.output = model.output;
        }
    }
}

fn add_model(entries: &mut Vec<Capabilities>, model: &Model, Ghost(models): Ghost<Seq<Model>>)
    requires
        by_identifier(old(entries)@),
        lists_models(old(entries)@, models),
    ensures
        by_identifier(final(entries)@),
        lists_models(final(entries)@, models.push(*model)),
{
    let ghost before = entries@;
    let ghost after = models.push(*model);
    assert(after.drop_last() =~= models);
    let mut at: usize = 0;
    while at < entries.len() && precedes(entries[at].id.as_str(), model.id.as_str())
        invariant
            at <= entries.len(),
            entries@ == before,
            forall|j: int| 0 <= j < at ==> comes_before(#[trigger] before[j].id@, model.id@),
        decreases entries.len() - at,
    {
        at += 1;
    }
    if at < entries.len() && same_text(entries[at].id.as_str(), model.id.as_str()) {
        entries[at].narrow(model);
        proof {
            assert(entries@ =~= before.update(at as int, entries@[at as int]));
            assert forall|k: int| 0 <= k < entries@.len() implies in_common(
                after,
                (#[trigger] entries@[k]).id@,
            ) == Some(entries@[k]@) by {
                assert(in_common(models, before[k].id@) == Some(before[k]@));
                if k != at {
                    lemma_order_total(before[k].id@, before[at as int].id@);
                }
            }
            assert forall|id: Seq<char>| #[trigger]
                in_common(after, id) is Some implies exists|k: int|
                0 <= k < entries@.len() && (#[trigger] entries@[k]).id@ == id by {
                if id == model.id@ {
                    assert(entries@[at as int].id@ == id);
                } else {
                    assert(in_common(models, id) is Some);
                    let k = choose|k: int| 0 <= k < before.len() && (#[trigger] before[k]).id@ == id;
                    assert(entries@[k].id@ == id);
                }
            }
        }
    } else {
        proof {
            if at < before.len() {
                lemma_order_total(before[at as int].id@, model.id@);
            }
            assert forall|j: int| at <= j < before.len() implies comes_before(
                model.id@,
                #[trigger] before[j].id@,
            ) by {
                if j > at {
                    lemma_order_transitive(model.id@, before[at as int].id@, before[j].id@);
                }
            }
            assert(in_common(models, model.id@) is None) by {
                if in_common(models, model.id@) is Some {
                    let k = choose|k: int|
                        0 <= k < before.len() && (#[trigger] before[k]).id@ == model.id@;
                    lemma_order_total(model.id@, before[k].id@);
                }
            }
        }
        let entry = own_capabilities(model);
        entries.insert(at, entry);
        proof {
            assert(entries@ =~= before.insert(at as int, entry));
            assert forall|k: int| 0 <= k < entries@.len() implies in_common(
                after,
                (#[trigger] entries@[k]).id@,
            ) == Some(entries@[k]@) by {
                if k != at {
                    let from = if k < at { k } else { k - 1 };
                    assert(entries@[k] == before[from]);
                    assert(in_common(models, before[from].id@) == Some(before[from]@));
                    lemma_order_total(before[from].id@, model.id@);
                }
            }
            assert forall|id: Seq<char>| #[trigger]
                in_common(after, id) is Some implies exists|k: int|
                0 <= k < entries@.len() && (#[trigger] entries@[k]).id@ == id by {
                if id == model.id@ {
                    assert(entries@[at as int].id@ == id);
                } else {
                    assert(in_common(models, id) is Some);
                    let k = choose|k: int| 0 <= k < before.len() && (#[trigger] before[k]).id@ == id;
                    let to = if k < at { k } else { k + 1 };
                    assert(entries@[to].id@ == id);
                }
            }
            assert forall|i: int, j: int| 0 <= i < j < entries@.len() implies comes_before(
                (#[trigger] entries@[i]).id@,
                (#[trigger] entries@[j]).id@,
            ) by {
                if i != at {
                    let from = if i < at { i } else { i - 1 };
                    assert(entries@[i] == before[from]);
                }
                if j != at {
                    let from = if j < at { j } else { j - 1 };
                    assert(entries@[j] == before[from]);
                }
            }
        }
    }
}

impl Catalog {
    /// What a client can count on for each model, whichever product serves it, in the order of
    /// the identifiers. The product is not chosen yet, so only what all products share counts.
    pub fn capabilities(&self) -> (entries: Vec<Capabilities>)
        ensures
            by_identifier(entries@),
            lists_models(entries@, self.models@),
    {
        let mut entries: Vec<Capabilities> = Vec::new();
        let mut i: usize = 0;
        assert(self.models@.take(0) =~= seq![]);
        while i < self.models.len()
            invariant
                i <= self.models.len(),
                by_identifier(entries@),
                lists_models(entries@, self.models@.take(i as int)),
            decreases self.models.len() - i,
        {
            add_model(&mut entries, &self.models[i], Ghost(self.models@.take(i as int)));
            assert(self.models@.take(i as int).push(self.models@[i as int]) =~= self.models@.take(
                i + 1,
            ));
            i += 1;
        }
        assert(self.models@.take(i as int) =~= self.models@);
        entries
    }
}

/// What is promised of a model holds in every product that offers it.
pub proof fn lemma_promise_holds_everywhere(models: Seq<Model>, at: int)
    requires
        0 <= at < models.len(),
    ensures
        in_common(models, models[at].id@) matches Some(shared) && {
            &&& shared.id == models[at].id@
            &&& shared.tools ==> models[at].tools
            &&& shared.vision ==> models[at].vision
            &&& shared.reasoning ==> models[at].reasoning
            &&& shared.context <= models[at].context
            &&& shared.output <= models[at].output
        },
    decreases models.len(),
{
    let front = models.drop_last();
    if at < front.len() {
        assert(front[at] == models[at]);
        lemma_promise_holds_everywhere(front, at);
    } else {
        lemma_common_identifier(front, models[at].id@);
    }
}

proof fn lemma_common_identifier(models: Seq<Model>, id: Seq<char>)
    ensures
        in_common(models, id) matches Some(shared) ==> shared.id == id,
    decreases models.len(),
{
    if models.len() > 0 {
        lemma_common_identifier(models.drop_last(), id);
    }
}

} // verus!
