//! Work items as clients submit them, and their translation into the
//! tracker's bulk-create request.

use vstd::prelude::*;
use crate::text::{key_le, lemma_lex_le_reflexive, lemma_lex_le_total, lemma_lex_le_transitive, str_le};
use vstd::seq_lib::seq_to_set_is_finite;
use vstd::set_lib::{lemma_int_range, lemma_subset_equality, set_int_range};
use vstd::utf8::encode_utf8;

verus! {

/// The parent of a requested sub-task.
#[derive(Debug, Clone, PartialEq, Eq)]
pub struct IncomingParentPayload {
    pub key: String,
}

/// One requested sub-task: the parent it goes under, and its summary.
#[derive(Debug, Clone, PartialEq, Eq)]
pub struct IncomingFields {
    pub parent: IncomingParentPayload,
    pub summary: String,
}

/// A reference by key: to the target project, or to a parent issue.
#[derive(Debug, Clone, PartialEq, Eq)]
pub struct JiraProject {
    pub key: String,
}

/// A reference to an issue type by its identifier.
#[derive(Debug, Clone, PartialEq, Eq)]
pub struct JiraIssueType {
    pub id: String,
}

/// The fields of one issue to create.
#[derive(Debug, Clone, PartialEq, Eq)]
pub struct JiraFields {
    pub project: JiraProject,
    pub parent: JiraProject,
    pub summary: String,
    pub issuetype: JiraIssueType,
}

/// One entry of a bulk-create request.
#[derive(Debug, Clone, PartialEq, Eq)]
pub struct JiraIssueUpdate {
    pub fields: JiraFields,
}

/// A bulk-create request: its entries in the order in which they are sent.
#[derive(Debug, Clone, PartialEq, Eq)]
pub struct JiraPayload {
    pub issue_updates: Vec<JiraIssueUpdate>,
}

/// What a requested sub-task says.
pub struct WorkItem {
    pub parent_key: Seq<char>,
    pub summary: Seq<char>,
}

/// What one entry of a bulk-create request says.
pub struct BulkEntry {
    pub project_key: Seq<char>,
    pub parent_key: Seq<char>,
    pub summary: Seq<char>,
    pub issue_type_id: Seq<char>,
}

impl View for IncomingFields {
    type V = WorkItem;

    open spec fn view(&self) -> WorkItem {
        WorkItem { parent_key: self.parent.key@, summary: self.summary@ }
    }
}

impl View for JiraIssueUpdate {
    type V = BulkEntry;

    open spec fn view(&self) -> BulkEntry {
        BulkEntry {
            project_key: self.fields.project.key@,
            parent_key: self.fields.parent.key@,
            summary: self.fields.summary@,
            issue_type_id: self.fields.issuetype.id@,
        }
    }
}

impl View for JiraPayload {
    type V = Seq<BulkEntry>;

    open spec fn view(&self) -> Seq<BulkEntry> {
        self.issue_updates@.map_values(|u: JiraIssueUpdate| u@)
    }
}

/// What a list of requested sub-tasks says.
pub open spec fn work_items(items: Seq<IncomingFields>) -> Seq<WorkItem> {
    items.map_values(|f: IncomingFields| f@)
}

/// The entry that a work item becomes under a project and an issue type.
pub open spec fn entry_for(item: WorkItem, project_key: Seq<char>, issue_type_id: Seq<char>) -> BulkEntry {
    BulkEntry { project_key, parent_key: item.parent_key, summary: item.summary, issue_type_id }
}

/// Whether the entries are in ascending byte order of their parent keys.
pub open spec fn sorted_by_parent(entries: Seq<BulkEntry>) -> bool {
    forall|i: int, j: int|
        0 <= i < j < entries.len() ==> key_le(
            #[trigger] entries[i].parent_key,
            #[trigger] entries[j].parent_key,
        )
}

/// Whether item `a` has its place before item `b` in the sent order: by its
/// parent key, and between equal keys by its place in the input.
pub open spec fn placed_before(items: Seq<WorkItem>, a: int, b: int) -> bool {
    &&& key_le(items[a].parent_key, items[b].parent_key)
    &&& key_le(items[b].parent_key, items[a].parent_key) ==> a < b
}

/// Whether `order` lists each position of `items` once, each before all
/// those that have their place after it. `order[i]` is the input position of
/// the item that is sent at position `i`.
pub open spec fn is_sent_order(order: Seq<int>, items: Seq<WorkItem>) -> bool {
    &&& order.len() == items.len()
    &&& forall|i: int| 0 <= i < order.len() ==> 0 <= #[trigger] order[i] < items.len()
    &&& forall|i: int, j: int|
        0 <= i < j < order.len() ==> #[trigger] order[i] != #[trigger] order[j]
    &&& forall|i: int, j: int|
        0 <= i < j < order.len() ==> placed_before(items, #[trigger] order[i], #[trigger] order[j])
}

/// Whether `entries` is the translation of `items`: one entry for each item,
/// carrying the project key and the issue type, in the sent order.
pub open spec fn is_translation(
    entries: Seq<BulkEntry>,
    order: Seq<int>,
    items: Seq<WorkItem>,
    project_key: Seq<char>,
    issue_type_id: Seq<char>,
) -> bool {
    &&& is_sent_order(order, items)
    &&& entries.len() == items.len()
    &&& forall|i: int|
        0 <= i < entries.len() ==> #[trigger] entries[i] == entry_for(
            items[order[i]],
            project_key,
            issue_type_id,
        )
}

/// A translation has one entry for each item, is sorted by parent key, and
/// keeps items with the same parent key in the order in which they were
/// submitted.
pub proof fn lemma_translation_sorted_and_stable(
    entries: Seq<BulkEntry>,
    order: Seq<int>,
    items: Seq<WorkItem>,
    project_key: Seq<char>,
    issue_type_id: Seq<char>,
)
    requires
        is_translation(entries, order, items, project_key, issue_type_id),
    ensures
        entries.len() == items.len(),
        sorted_by_parent(entries),
        forall|i: int, j: int|
            0 <= i < j < entries.len() && entries[i].parent_key == entries[j].parent_key
                ==> #[trigger] order[i] < #[trigger] order[j],
{
    assert forall|i: int, j: int| 0 <= i < j < entries.len() implies key_le(
        #[trigger] entries[i].parent_key,
        #[trigger] entries[j].parent_key,
    ) by {
        assert(placed_before(items, order[i], order[j]));
    }
    assert forall|i: int, j: int|
        0 <= i < j < entries.len() && entries[i].parent_key
            == entries[j].parent_key implies #[trigger] order[i] < #[trigger] order[j] by {
        assert(placed_before(items, order[i], order[j]));
        lemma_lex_le_reflexive(encode_utf8(entries[i].parent_key));
    }
}

/// A sent order names every position of the input.
pub proof fn lemma_sent_order_covers(order: Seq<int>, items: Seq<WorkItem>, a: int)
    requires
        is_sent_order(order, items),
        0 <= a < items.len(),
    ensures
        order.contains(a),
{
    let n = items.len() as int;
    assert(order.no_duplicates());
    order.unique_seq_to_set();
    seq_to_set_is_finite(order);
    lemma_int_range(0, n);
    assert(order.to_set().subset_of(set_int_range(0, n))) by {
        assert forall|v: int| order.to_set().contains(v) implies set_int_range(0, n).contains(
            v,
        ) by {
            let k = choose|k: int| 0 <= k < order.len() && order[k] == v;
            assert(0 <= order[k] < n);
        }
    }
    lemma_subset_equality(order.to_set(), set_int_range(0, n));
    assert(set_int_range(0, n).contains(a));
    assert(order.to_set().contains(a));
}

/// Two sent orders of the same items name the same item at each position.
proof fn lemma_sent_orders_agree(first: Seq<int>, second: Seq<int>, items: Seq<WorkItem>, i: int)
    requires
        is_sent_order(first, items),
        is_sent_order(second, items),
        0 <= i < items.len(),
    ensures
        first[i] == second[i],
    decreases i,
{
    assert forall|k: int| 0 <= k < i implies first[k] == second[k] by {
        lemma_sent_orders_agree(first, second, items, k);
    }
    let a = first[i];
    let b = second[i];
    if a != b {
        lemma_sent_order_covers(second, items, a);
        let j = choose|j: int| 0 <= j < second.len() && second[j] == a;
        if j < i {
            assert(first[j] == second[j]);
            assert(first[j] != first[i]);
        }
        assert(placed_before(items, second[i], second[j]));
        lemma_sent_order_covers(first, items, b);
        let k = choose|k: int| 0 <= k < first.len() && first[k] == b;
        if k < i {
            assert(first[k] == second[k]);
            assert(second[k] != second[i]);
        }
        assert(placed_before(items, first[i], first[k]));
    }
}

/// The items have one sent order and one translation: whatever meets the
/// contract of the translator is the same request.
pub proof fn lemma_translation_unique(
    first: Seq<BulkEntry>,
    first_order: Seq<int>,
    second: Seq<BulkEntry>,
    second_order: Seq<int>,
    items: Seq<WorkItem>,
    project_key: Seq<char>,
    issue_type_id: Seq<char>,
)
    requires
        is_translation(first, first_order, items, project_key, issue_type_id),
        is_translation(second, second_order, items, project_key, issue_type_id),
    ensures
        first_order == second_order,
        first == second,
{
    assert forall|i: int| 0 <= i < items.len() implies first_order[i] == second_order[i] by {
        lemma_sent_orders_agree(first_order, second_order, items, i);
    }
    assert(first_order =~= second_order);
    assert(first =~= second);
}

/// Builds the entry for one work item.
fn make_entry(item: &IncomingFields, project_key: &str, issue_type_id: &str) -> (entry:
    JiraIssueUpdate)
    ensures
        entry@ == entry_for(item@, project_key@, issue_type_id@),
{
    JiraIssueUpdate {
        fields: JiraFields {
            project: JiraProject { key: project_key.to_owned() },
            parent: JiraProject { key: item.parent.key.clone() },
            summary: item.summary.clone(),
            issuetype: JiraIssueType { id: issue_type_id.to_owned() },
        },
    }
}

/// The position at which an entry with parent key `key` goes into the sorted
/// `entries`: behind every entry whose key is not greater.
fn insertion_point(entries: &Vec<JiraIssueUpdate>, key: &str) -> (pos: usize)
    requires
        forall|i: int, j: int|
            0 <= i < j < entries.len() ==> key_le(
                #[trigger] entries[i]@.parent_key,
                #[trigger] entries[j]@.parent_key,
            ),
    ensures
        pos <= entries.len(),
        forall|i: int| 0 <= i < pos ==> key_le((#[trigger] entries[i])@.parent_key, key@),
        forall|i: int|
            pos <= i < entries.len() ==> !key_le((#[trigger] entries[i])@.parent_key, key@),
{
    let mut pos: usize = entries.len();
    while pos > 0 && !str_le(entries[pos - 1].fields.parent.key.as_str(), key)
        invariant
            pos <= entries.len(),
            forall|i: int|
                pos <= i < entries.len() ==> !key_le((#[trigger] entries[i])@.parent_key, key@),
        decreases pos,
    {
        pos -= 1;
    }
    proof {
        if pos > 0 {
            let last = entries[pos - 1]@.parent_key;
            assert forall|i: int| 0 <= i < pos implies key_le(
                (#[trigger] entries[i])@.parent_key,
                key@,
            ) by {
                if i < pos - 1 {
                    lemma_lex_le_transitive(
                        encode_utf8(entries[i]@.parent_key),
                        encode_utf8(last),
                        encode_utf8(key@),
                    );
                }
            }
        }
    }
    pos
}

/// Translates work items into the tracker's bulk-create request.
///
/// Every item becomes one entry that carries `project_key` and
/// `issue_type_id`. The entries are sorted by parent key in ascending byte
/// order, and entries with the same parent key keep the order in which their
/// items were submitted. Positions in the result are the positions by which
/// the tracker reports failures.
pub fn convert_to_jira_payload(
    items: Vec<IncomingFields>,
    project_key: &str,
    issue_type_id: &str,
) -> (payload: JiraPayload)
    ensures
        payload@.len() == items.len(),
        sorted_by_parent(payload@),
        exists|order: Seq<int>|
            is_translation(payload@, order, work_items(items@), project_key@, issue_type_id@),
{
    let mut updates: Vec<JiraIssueUpdate> = Vec::new();
    let ghost mut order: Seq<int> = Seq::empty();
    let ghost all = work_items(items@);
    let mut n: usize = 0;
    while n < items.len()
        invariant
            n <= items.len(),
            all == work_items(items@),
            updates.len() == n,
            order.len() == n,
            forall|i: int| 0 <= i < n ==> 0 <= #[trigger] order[i] < n,
            forall|i: int, j: int|
                0 <= i < j < n ==> placed_before(all, #[trigger] order[i], #[trigger] order[j]),
            forall|i: int|
                0 <= i < n ==> (#[trigger] updates[i])@ == entry_for(
                    all[order[i]],
                    project_key@,
                    issue_type_id@,
                ),
        decreases items.len() - n,
    {
        let item = &items[n];
        let entry = make_entry(item, project_key, issue_type_id);
        proof {
            assert forall|i: int, j: int| 0 <= i < j < updates.len() implies key_le(
                #[trigger] updates[i]@.parent_key,
                #[trigger] updates[j]@.parent_key,
            ) by {
                assert(placed_before(all, order[i], order[j]));
            }
        }
        let pos = insertion_point(&updates, item.parent.key.as_str());
        let ghost before = updates@;
        let ghost order_before = order;
        updates.insert(pos, entry);
        proof {
            order = order.insert(pos as int, n as int);
            let key = all[n as int].parent_key;
            lemma_lex_le_reflexive(encode_utf8(key));
            assert forall|i: int, j: int| 0 <= i < j < n + 1 implies placed_before(
                all,
                #[trigger] order[i],
                #[trigger] order[j],
            ) by {
                if j == pos {
                    assert(order[i] == order_before[i]);
                    assert(key_le(before[i]@.parent_key, key));
                } else if i == pos {
                    assert(order[j] == order_before[j - 1]);
                    let other = before[j - 1]@.parent_key;
                    assert(!key_le(other, key));
                    lemma_lex_le_total(encode_utf8(key), encode_utf8(other));
                } else {
                    let a = if i < pos { i } else { i - 1 };
                    let b = if j < pos { j } else { j - 1 };
                    assert(order[i] == order_before[a]);
                    assert(order[j] == order_before[b]);
                    assert(placed_before(all, order_before[a], order_before[b]));
                }
            }
            assert forall|i: int| 0 <= i < n + 1 implies (#[trigger] updates[i])@ == entry_for(
                all[order[i]],
                project_key@,
                issue_type_id@,
            ) by {
                if i < pos {
                    assert(updates[i] == before[i]);
                } else if i > pos {
                    assert(updates[i] == before[i - 1]);
                }
            }
        }
        n += 1;
    }
    let payload = JiraPayload { issue_updates: updates };
    proof {
        let entries = payload@;
        assert forall|i: int, j: int| 0 <= i < j < order.len() implies #[trigger] order[i]
            != #[trigger] order[j] by {
            assert(placed_before(all, order[i], order[j]));
            lemma_lex_le_reflexive(encode_utf8(all[order[i]].parent_key));
        }
        assert forall|i: int, j: int| 0 <= i < j < entries.len() implies key_le(
            #[trigger] entries[i].parent_key,
            #[trigger] entries[j].parent_key,
        ) by {
            assert(placed_before(all, order[i], order[j]));
            assert(entries[i] == payload.issue_updates[i]@);
            assert(entries[j] == payload.issue_updates[j]@);
        }
        assert forall|i: int| 0 <= i < entries.len() implies #[trigger] entries[i] == entry_for(
            all[order[i]],
            project_key@,
            issue_type_id@,
        ) by {
            assert(entries[i] == payload.issue_updates[i]@);
        }
        assert(is_translation(entries, order, all, project_key@, issue_type_id@));
    }
    payload
}

} // verus!
