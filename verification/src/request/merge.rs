//! Joining neighbouring messages where a protocol wants one.

use crate::json::{
    as_array, as_text, copy_items, equal_values, get, items_view, lemma_items_view, lemma_items_view_append,
    lemma_items_view_push, Json, JsonView,
};
use crate::text::same_text;
use vstd::prelude::*;

verus! {

pub open spec fn role(message: JsonView) -> Option<Seq<char>> {
    as_text(get(Some(message), "role"@))
}

/// The items of the list that a message holds under `key`.
pub open spec fn list(message: JsonView, key: Seq<char>) -> Option<Seq<JsonView>> {
    as_array(get(Some(message), key))
}

/// The message with the list under `key` replaced.
pub open spec fn with_list(message: JsonView, key: Seq<char>, items: Seq<JsonView>) -> JsonView {
    match message {
        JsonView::Object(fields) => JsonView::Object(fields.insert(key, JsonView::Array(items))),
        _ => message,
    }
}

/// The sequence with another last element.
pub open spec fn replace_last(messages: Seq<JsonView>, message: JsonView) -> Seq<JsonView> {
    messages.drop_last().push(message)
}

/// Whether two messages have the same role, whatever value it is, or neither has one.
pub open spec fn one_role(first: JsonView, second: JsonView) -> bool {
    match (get(Some(first), "role"@), get(Some(second), "role"@)) {
        (Some(left), Some(right)) => equal_values(left, right),
        (None, None) => true,
        _ => false,
    }
}

/// Whether two neighbouring messages are one turn: the same role, and a list of parts in each.
pub open spec fn one_turn(first: JsonView, second: JsonView) -> bool {
    one_role(first, second) && list(first, "content"@) is Some && list(second, "content"@) is Some
}

/// The messages after one more, which joins the last one where the two are one turn.
pub open spec fn turn_added(messages: Seq<JsonView>, next: JsonView) -> Seq<JsonView> {
    if messages.len() > 0 && one_turn(messages.last(), next) {
        let parts = list(messages.last(), "content"@)->0 + list(next, "content"@)->0;
        replace_last(messages, with_list(messages.last(), "content"@, parts))
    } else {
        messages.push(next)
    }
}

/// The messages with neighbours of one turn joined.
pub open spec fn turns(messages: Seq<JsonView>) -> Seq<JsonView>
    decreases messages.len(),
{
    if messages.len() == 0 {
        seq![]
    } else {
        turn_added(turns(messages.drop_last()), messages.last())
    }
}

/// Whether a message only adds calls to the assistant's turn before it.
pub open spec fn continues_calls(first: JsonView, second: JsonView) -> bool {
    role(first) == Some("assistant"@) && role(second) == Some("assistant"@) && list(
        second,
        "tool_calls"@,
    ) is Some
}

/// The messages after one more. Its tool calls join the assistant message before it: a request
/// lists parallel calls one by one, while Chat wants them in one assistant message.
pub open spec fn calls_added(messages: Seq<JsonView>, next: JsonView) -> Seq<JsonView> {
    if messages.len() > 0 && continues_calls(messages.last(), next) {
        let calls = match list(messages.last(), "tool_calls"@) {
            Some(before) => before + list(next, "tool_calls"@)->0,
            None => list(next, "tool_calls"@)->0,
        };
        replace_last(messages, with_list(messages.last(), "tool_calls"@, calls))
    } else {
        messages.push(next)
    }
}

/// The messages with the assistant's tool calls joined.
pub open spec fn joined_calls(messages: Seq<JsonView>) -> Seq<JsonView>
    decreases messages.len(),
{
    if messages.len() == 0 {
        seq![]
    } else {
        calls_added(joined_calls(messages.drop_last()), messages.last())
    }
}

/// All items of the lists under `key`, message by message.
pub open spec fn gathered(messages: Seq<JsonView>, key: Seq<char>) -> Seq<JsonView>
    decreases messages.len(),
{
    if messages.len() == 0 {
        seq![]
    } else {
        gathered(messages.drop_last(), key) + (match list(messages.last(), key) {
            Some(items) => items,
            None => seq![],
        })
    }
}

proof fn lemma_gathered_push(messages: Seq<JsonView>, message: JsonView, key: Seq<char>)
    ensures
        gathered(messages.push(message), key) == gathered(messages, key) + (match list(
            message,
            key,
        ) {
            Some(items) => items,
            None => seq![],
        }),
{
    assert(messages.push(message).drop_last() == messages);
}

/// Joining turns loses no part and keeps their order.
pub proof fn lemma_turns_keep_parts(messages: Seq<JsonView>)
    ensures
        gathered(turns(messages), "content"@) == gathered(messages, "content"@),
    decreases messages.len(),
{
    if messages.len() > 0 {
        let before = turns(messages.drop_last());
        let next = messages.last();
        lemma_turns_keep_parts(messages.drop_last());
        if before.len() > 0 && one_turn(before.last(), next) {
            let first = list(before.last(), "content"@)->0;
            let second = list(next, "content"@)->0;
            let whole = with_list(before.last(), "content"@, first + second);
            lemma_gathered_push(before.drop_last(), whole, "content"@);
            assert(list(whole, "content"@) == Some(first + second));
            assert(gathered(before.drop_last(), "content"@) + (first + second) == (gathered(
                before.drop_last(),
                "content"@,
            ) + first) + second);
        } else {
            lemma_gathered_push(before, next, "content"@);
        }
    }
}

/// After joining, no two neighbouring messages are one turn.
pub proof fn lemma_turns_alternate(messages: Seq<JsonView>)
    ensures
        forall|i: int|
            0 < i < turns(messages).len() ==> !one_turn(
                turns(messages)[i - 1],
                #[trigger] turns(messages)[i],
            ),
    decreases messages.len(),
{
    reveal_strlit("role");
    reveal_strlit("content");
    assert("role"@.len() != "content"@.len());
    if messages.len() > 0 {
        let before = turns(messages.drop_last());
        let next = messages.last();
        let after = turns(messages);
        lemma_turns_alternate(messages.drop_last());
        if before.len() > 0 && one_turn(before.last(), next) {
            let last = before.len() - 1;
            assert forall|i: int| 0 < i < after.len() implies !one_turn(
                after[i - 1],
                #[trigger] after[i],
            ) by {
                assert(!one_turn(before[i - 1], before[i]));
                if i == last {
                    assert(get(Some(after[i]), "role"@) == get(Some(before[i]), "role"@));
                    assert(list(before[i], "content"@) is Some);
                }
            }
        } else {
            assert forall|i: int| 0 < i < after.len() implies !one_turn(
                after[i - 1],
                #[trigger] after[i],
            ) by {
                if i < before.len() {
                    assert(!one_turn(before[i - 1], before[i]));
                }
            }
        }
    }
}

/// Joining calls loses no call and keeps their order.
pub proof fn lemma_joined_calls_keep_calls(messages: Seq<JsonView>)
    ensures
        gathered(joined_calls(messages), "tool_calls"@) == gathered(messages, "tool_calls"@),
    decreases messages.len(),
{
    if messages.len() > 0 {
        let before = joined_calls(messages.drop_last());
        let next = messages.last();
        lemma_joined_calls_keep_calls(messages.drop_last());
        if before.len() > 0 && continues_calls(before.last(), next) {
            let first = match list(before.last(), "tool_calls"@) {
                Some(calls) => calls,
                None => seq![],
            };
            let second = list(next, "tool_calls"@)->0;
            let whole = with_list(before.last(), "tool_calls"@, first + second);
            assert(list(before.last(), "tool_calls"@) is None ==> first + second == second);
            lemma_gathered_push(before.drop_last(), whole, "tool_calls"@);
            assert(list(whole, "tool_calls"@) == Some(first + second));
            assert(gathered(before.drop_last(), "tool_calls"@) + (first + second) == (gathered(
                before.drop_last(),
                "tool_calls"@,
            ) + first) + second);
        } else {
            lemma_gathered_push(before, next, "tool_calls"@);
        }
    }
}

pub open spec fn assistant(message: JsonView) -> bool {
    role(message) == Some("assistant"@)
}

/// Joining calls keeps the role of the last message.
proof fn lemma_joined_calls_last(messages: Seq<JsonView>)
    requires
        messages.len() > 0,
    ensures
        joined_calls(messages).len() > 0,
        role(joined_calls(messages).last()) == role(messages.last()),
{
    reveal_strlit("role");
    reveal_strlit("tool_calls");
    assert("role"@.len() != "tool_calls"@.len());
}

/// Where every assistant message that directly follows another one brings tool calls, joining
/// leaves no two neighbouring assistant messages.
pub proof fn lemma_calls_stand_together(messages: Seq<JsonView>)
    requires
        forall|i: int|
            0 < i < messages.len() && assistant(messages[i - 1]) && assistant(
                #[trigger] messages[i],
            ) ==> list(messages[i], "tool_calls"@) is Some,
    ensures
        forall|i: int|
            0 < i < joined_calls(messages).len() ==> !(assistant(joined_calls(messages)[i - 1])
                && assistant(#[trigger] joined_calls(messages)[i])),
    decreases messages.len(),
{
    if messages.len() > 0 {
        let front = messages.drop_last();
        let before = joined_calls(front);
        let next = messages.last();
        let after = joined_calls(messages);
        assert forall|i: int|
            0 < i < front.len() && assistant(front[i - 1]) && assistant(
                #[trigger] front[i],
            ) implies list(front[i], "tool_calls"@) is Some by {
            assert(messages[i - 1] == front[i - 1] && messages[i] == front[i]);
        }
        lemma_calls_stand_together(front);
        if front.len() > 0 {
            lemma_joined_calls_last(front);
            assert(messages[front.len() - 1] == front.last());
            assert(messages[front.len() as int] == next);
        }
        lemma_joined_calls_last(messages);
        assert forall|i: int| 0 < i < after.len() implies !(assistant(after[i - 1]) && assistant(
            #[trigger] after[i],
        )) by {
            if i < before.len() {
                assert(!(assistant(before[i - 1]) && assistant(before[i])));
            }
        }
    }
}

/// Puts a list under `key` of a message.
fn put_list(message: &Json, key: &str, items: Vec<Json>) -> (result: Json)
    requires
        message@ is Object,
    ensures
        result@ == with_list(message@, key@, items_view(items@)),
{
    match message {
        Json::Object(object) => {
            let whole = object.clone();
            Json::object(whole.with(key, Json::array(items)))
        },
        other => other.clone(),
    }
}

/// The first list followed by the second.
fn concatenated(first: &Vec<Json>, second: &Vec<Json>) -> (items: Vec<Json>)
    ensures
        items_view(items@) == items_view(first@) + items_view(second@),
{
    let mut items = copy_items(first);
    let mut rest = copy_items(second);
    proof {
        lemma_items_view_append(items@, rest@);
    }
    items.append(&mut rest);
    items
}

fn same_role(first: &Json, second: &Json) -> (same: bool)
    ensures
        same == one_role(first@, second@),
{
    match (first.get("role"), second.get("role")) {
        (Some(left), Some(right)) => left.same(right),
        (None, None) => true,
        _ => false,
    }
}

fn is_assistant(message: &Json) -> (result: bool)
    ensures
        result == (role(message@) == Some("assistant"@)),
{
    match message.text_at("role") {
        Some(role) => same_text(role, "assistant"),
        None => false,
    }
}

/// Replaces the last message.
fn put_last(messages: &mut Vec<Json>, message: Json)
    requires
        old(messages).len() > 0,
    ensures
        items_view(final(messages)@) == replace_last(items_view(old(messages)@), message@),
{
    let ghost before = messages@;
    let _ = messages.pop();
    proof {
        lemma_items_view_push(messages@, message);
        assert(items_view(before).drop_last() == items_view(messages@));
    }
    messages.push(message);
}

fn add_turn(messages: &mut Vec<Json>, next: Json)
    ensures
        items_view(final(messages)@) == turn_added(items_view(old(messages)@), next@),
{
    let count: usize = messages.len();
    proof {
        lemma_items_view(messages@);
        lemma_items_view_push(messages@, next);
    }
    if count > 0 {
        let last = &messages[count - 1];
        assert(items_view(messages@).last() == last@);
        if same_role(last, &next) {
            if let Some(first) = last.array_at("content") {
                if let Some(second) = next.array_at("content") {
                    let whole = put_list(last, "content", concatenated(first, second));
                    put_last(messages, whole);
                    return;
                }
            }
        }
    }
    messages.push(next);
}

/// Joins neighbouring messages of one turn.
pub fn merge_messages(messages: Vec<Json>) -> (merged: Vec<Json>)
    ensures
        items_view(merged@) == turns(items_view(messages@)),
{
    let ghost values = items_view(messages@);
    let mut merged: Vec<Json> = Vec::new();
    proof {
        lemma_items_view(messages@);
        assert(values.take(0) == Seq::<JsonView>::empty());
    }
    let mut i: usize = 0;
    while i < messages.len()
        invariant
            i <= messages.len(),
            values.len() == messages.len(),
            forall|j: int| 0 <= j < messages.len() ==> #[trigger] values[j] == messages@[j]@,
            items_view(merged@) == turns(values.take(i as int)),
        decreases messages.len() - i,
    {
        proof {
            assert(values.take(i + 1).drop_last() == values.take(i as int));
            assert(values[i as int] == messages@[i as int]@);
        }
        add_turn(&mut merged, messages[i].clone());
        i += 1;
    }
    assert(values.take(i as int) == values);
    merged
}

fn add_calls(messages: &mut Vec<Json>, next: Json)
    ensures
        items_view(final(messages)@) == calls_added(items_view(old(messages)@), next@),
{
    let count: usize = messages.len();
    proof {
        lemma_items_view(messages@);
        lemma_items_view_push(messages@, next);
    }
    if count > 0 && is_assistant(&next) && is_assistant(&messages[count - 1]) {
        let last = &messages[count - 1];
        assert(items_view(messages@).last() == last@);
        if let Some(calls) = next.array_at("tool_calls") {
            let all = match last.array_at("tool_calls") {
                Some(before) => concatenated(before, calls),
                None => copy_items(calls),
            };
            let whole = put_list(last, "tool_calls", all);
            put_last(messages, whole);
            return;
        }
    }
    messages.push(next);
}

/// Joins the assistant's tool calls.
pub fn merge_chat_tool_calls(messages: Vec<Json>) -> (merged: Vec<Json>)
    ensures
        items_view(merged@) == joined_calls(items_view(messages@)),
{
    let ghost values = items_view(messages@);
    let mut merged: Vec<Json> = Vec::new();
    proof {
        lemma_items_view(messages@);
        assert(values.take(0) == Seq::<JsonView>::empty());
    }
    let mut i: usize = 0;
    while i < messages.len()
        invariant
            i <= messages.len(),
            values.len() == messages.len(),
            forall|j: int| 0 <= j < messages.len() ==> #[trigger] values[j] == messages@[j]@,
            items_view(merged@) == joined_calls(values.take(i as int)),
        decreases messages.len() - i,
    {
        proof {
            assert(values.take(i + 1).drop_last() == values.take(i as int));
            assert(values[i as int] == messages@[i as int]@);
        }
        add_calls(&mut merged, messages[i].clone());
        i += 1;
    }
    assert(values.take(i as int) == values);
    merged
}

} // verus!
