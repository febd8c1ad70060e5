use vstd::prelude::*;
use crate::plan::{apply_selection, chosen_for_apply, spec_label, Classification, RepoEntry};
use crate::text::{
    decimal, decimal_exec, differs_first_at, lemma_precedes_transitive, pad_right, pad_right_exec,
    precedes, repeat_char,
};

verus! {

/// What `humansize::format_size(bytes, humansize::DECIMAL)` makes of a byte count.
pub uninterp spec fn decimal_size(bytes: u64) -> Seq<char>;

/// Calls `humansize::format_size` with the `DECIMAL` options (SI units,
/// "22 B", "1.50 kB"). Its result depends on `bytes` alone and is named
/// `decimal_size`; nothing more of its text is stated here.
#[verifier::external_body]
fn format_size_decimal(bytes: u64) -> (text: String)
    ensures
        text@ == decimal_size(bytes),
{
    humansize::format_size(bytes, humansize::DECIMAL)
}

/// How many entries have classification `c`.
pub open spec fn count_of(entries: Seq<RepoEntry>, c: Classification) -> nat
    decreases entries.len(),
{
    if entries.len() == 0 {
        0
    } else {
        count_of(entries.drop_last(), c) + if entries.last().classification == c { 1nat } else { 0nat }
    }
}

/// The bytes held by the targets of the entries that are safe to clean.
pub open spec fn reclaimable(entries: Seq<RepoEntry>) -> int
    decreases entries.len(),
{
    if entries.len() == 0 {
        0
    } else {
        reclaimable(entries.drop_last()) + if entries.last().classification == Classification::SafeToClean {
            entries.last().target_bytes as int
        } else {
            0
        }
    }
}

proof fn lemma_reclaimable_prefix(entries: Seq<RepoEntry>, i: int)
    requires
        0 <= i <= entries.len(),
    ensures
        0 <= reclaimable(entries.take(i)) <= reclaimable(entries),
    decreases entries.len() - i,
{
    if i < entries.len() {
        lemma_reclaimable_prefix(entries, i + 1);
        assert(entries.take(i + 1).drop_last() =~= entries.take(i));
        lemma_reclaimable_nonnegative(entries.take(i));
    } else {
        assert(entries.take(i) =~= entries);
        lemma_reclaimable_nonnegative(entries);
    }
}

proof fn lemma_reclaimable_nonnegative(entries: Seq<RepoEntry>)
    ensures
        reclaimable(entries) >= 0,
    decreases entries.len(),
{
    if entries.len() > 0 {
        lemma_reclaimable_nonnegative(entries.drop_last());
    }
}

/// The bytes that cleaning every safe-to-clean entry would free, `None` when
/// the total does not fit in a `u64`.
pub fn reclaimable_bytes(entries: &Vec<RepoEntry>) -> (total: Option<u64>)
    ensures
        total matches Some(t) ==> t == reclaimable(entries@),
        total is None <==> reclaimable(entries@) > u64::MAX,
{
    let mut sum: u64 = 0;
    let mut i: usize = 0;
    while i < entries.len()
        invariant
            i <= entries.len(),
            sum == reclaimable(entries@.take(i as int)),
        decreases entries.len() - i,
    {
        assert(entries@.take(i + 1).drop_last() =~= entries@.take(i as int));
        if entries[i].classification == Classification::SafeToClean {
            match sum.checked_add(entries[i].target_bytes) {
                Some(s) => {
                    sum = s;
                },
                None => {
                    proof {
                        lemma_reclaimable_prefix(entries@, i + 1);
                    }
                    return None;
                },
            }
        }
        i = i + 1;
    }
    assert(entries@.take(entries.len() as int) =~= entries@);
    Some(sum)
}


/// How many entries have classification `c`.
pub fn count_class(entries: &Vec<RepoEntry>, c: Classification) -> (n: u64)
    ensures
        n == count_of(entries@, c),
{
    let mut n: u64 = 0;
    let mut i: usize = 0;
    while i < entries.len()
        invariant
            i <= entries.len(),
            n <= i,
            n == count_of(entries@.take(i as int), c),
        decreases entries.len() - i,
    {
        assert(entries@.take(i + 1).drop_last() =~= entries@.take(i as int));
        if entries[i].classification == c {
            n = n + 1;
        }
        i = i + 1;
    }
    assert(entries@.take(entries.len() as int) =~= entries@);
    n
}

/// The texts of a sequence of strings.
pub open spec fn texts(lines: Seq<String>) -> Seq<Seq<char>> {
    lines.map_values(|l: String| l@)
}

/// The size column: the target's size, or `-` when it holds nothing.
pub open spec fn size_cell(bytes: u64) -> Seq<char> {
    if bytes > 0 {
        decimal_size(bytes)
    } else {
        "-"@
    }
}

/// The header line of the plan table.
pub open spec fn table_header() -> Seq<char> {
    pad_right("REPO"@, 30) + " "@ + pad_right("CLASSIFICATION"@, 20) + " TARGET SIZE"@
}

/// The rule above and below the table rows.
pub open spec fn table_rule() -> Seq<char> {
    Seq::new(70, |i: int| '-')
}

/// The table row of one repo: name, classification, size of its target.
pub open spec fn table_row(e: RepoEntry) -> Seq<char> {
    pad_right(e.name@, 30) + " "@ + pad_right(spec_label(e.classification), 20) + " "@ + size_cell(e.target_bytes)
}

/// The classifications in the order of their labels.
pub open spec fn summary_order() -> Seq<Classification> {
    seq![
        Classification::BinaryStale,
        Classification::BuildInFlight,
        Classification::NoTarget,
        Classification::NotAnchored,
        Classification::SafeToClean,
    ]
}

/// The summary line for `n` repos of classification `c`.
pub open spec fn count_line(c: Classification, n: nat) -> Seq<char> {
    "  "@ + spec_label(c) + ": "@ + decimal(n)
}

/// One summary line per classification of `order` that some entry has.
pub open spec fn summary_lines(entries: Seq<RepoEntry>, order: Seq<Classification>) -> Seq<Seq<char>>
    decreases order.len(),
{
    if order.len() == 0 {
        seq![]
    } else {
        let before = summary_lines(entries, order.drop_last());
        let c = order.last();
        if count_of(entries, c) > 0 {
            before.push(count_line(c, count_of(entries, c)))
        } else {
            before
        }
    }
}

/// The closing line: the bytes that cleaning would free.
pub open spec fn total_line(entries: Seq<RepoEntry>) -> Seq<char> {
    "Total reclaimable: "@ + decimal_size(reclaimable(entries) as u64)
}

/// The lines that `plan` prints for the scanned repos.
pub open spec fn plan_lines(entries: Seq<RepoEntry>) -> Seq<Seq<char>> {
    if entries.len() == 0 {
        seq!["No repos found."@]
    } else {
        seq![table_header(), table_rule()]
            + entries.map_values(|e: RepoEntry| table_row(e))
            + seq![table_rule(), "Summary:"@]
            + summary_lines(entries, summary_order())
            + seq![total_line(entries)]
    }
}

fn push_line(lines: &mut Vec<String>, line: String)
    ensures
        texts(final(lines)@) == texts(old(lines)@).push(line@),
{
    let ghost before = lines@;
    lines.push(line);
    assert(texts(lines@) =~= texts(before).push(line@));
}

fn size_cell_exec(bytes: u64) -> (cell: String)
    ensures
        cell@ == size_cell(bytes),
{
    if bytes > 0 {
        format_size_decimal(bytes)
    } else {
        String::from_str("-")
    }
}

/// The plan table and summary for the scanned repos: a header, one row per
/// repo, a count per classification present (in label order) and the total
/// that cleaning would free. Each count is a `u32` and the total a `u64`, so
/// each must fit.
pub fn render_plan(entries: &Vec<RepoEntry>) -> (lines: Vec<String>)
    requires
        forall|c: Classification| #[trigger] count_of(entries@, c) <= u32::MAX,
        reclaimable(entries@) <= u64::MAX,
    ensures
        texts(lines@) == plan_lines(entries@),
{
    let mut lines: Vec<String> = Vec::new();
    if entries.len() == 0 {
        push_line(&mut lines, String::from_str("No repos found."));
        assert(texts(lines@) =~= plan_lines(entries@));
        return lines;
    }
    let mut header = pad_right_exec("REPO", 30);
    header.append(" ");
    let class_col = pad_right_exec("CLASSIFICATION", 20);
    header.append(class_col.as_str());
    header.append(" TARGET SIZE");
    push_line(&mut lines, header);
    push_line(&mut lines, repeat_char('-', 70));
    let ghost head = texts(lines@);
    let mut i: usize = 0;
    while i < entries.len()
        invariant
            i <= entries.len(),
            head == seq![table_header(), table_rule()],
            texts(lines@) == head + entries@.take(i as int).map_values(|e: RepoEntry| table_row(e)),
        decreases entries.len() - i,
    {
        let e = &entries[i];
        let mut row = pad_right_exec(e.name.as_str(), 30);
        row.append(" ");
        let label = pad_right_exec(e.classification.label(), 20);
        row.append(label.as_str());
        row.append(" ");
        let cell = size_cell_exec(e.target_bytes);
        row.append(cell.as_str());
        push_line(&mut lines, row);
        assert(entries@.take(i + 1).map_values(|e: RepoEntry| table_row(e))
            =~= entries@.take(i as int).map_values(|e: RepoEntry| table_row(e)).push(table_row(entries@[i as int])));
        i = i + 1;
    }
    assert(entries@.take(entries.len() as int) =~= entries@);
    push_line(&mut lines, repeat_char('-', 70));
    push_line(&mut lines, String::from_str("Summary:"));
    let ghost body = texts(lines@);
    let order: Vec<Classification> = vec![
        Classification::BinaryStale,
        Classification::BuildInFlight,
        Classification::NoTarget,
        Classification::NotAnchored,
        Classification::SafeToClean,
    ];
    assert(order@ =~= summary_order());
    let mut j: usize = 0;
    while j < order.len()
        invariant
            j <= order.len(),
            order@ == summary_order(),
            texts(lines@) == body + summary_lines(entries@, order@.take(j as int)),
        decreases order.len() - j,
    {
        let c = order[j];
        let n = count_class(entries, c);
        assert(order@.take(j + 1).drop_last() =~= order@.take(j as int));
        if n > 0 {
            let mut line = String::from_str("  ");
            line.append(c.label());
            line.append(": ");
            let digits = decimal_exec(n);
            line.append(digits.as_str());
            push_line(&mut lines, line);
        }
        j = j + 1;
    }
    assert(order@.take(order.len() as int) =~= order@);
    let total = match reclaimable_bytes(entries) {
        Some(t) => t,
        None => 0,
    };
    let mut last = String::from_str("Total reclaimable: ");
    let size = format_size_decimal(total);
    last.append(size.as_str());
    push_line(&mut lines, last);
    assert(texts(lines@) =~= plan_lines(entries@));
    lines
}


/// The line `apply` prints after cleaning a repo.
pub open spec fn cleaned_line(name: Seq<char>, bytes: u64) -> Seq<char> {
    "Cleaned "@ + name + " \u{2014} freed "@ + decimal_size(bytes)
}

/// What `apply` reports after freeing `bytes` bytes from repo `name`.
pub fn cleaned_message(name: &str, bytes: u64) -> (msg: String)
    ensures
        msg@ == cleaned_line(name@, bytes),
{
    let mut msg = String::from_str("Cleaned ");
    msg.append(name);
    msg.append(" \u{2014} freed ");
    let size = format_size_decimal(bytes);
    msg.append(size.as_str());
    msg
}

/// Every entry is counted under exactly one classification: the summary
/// counts add up to the number of repos.
pub proof fn law_counts_cover_entries(entries: Seq<RepoEntry>)
    ensures
        count_of(entries, Classification::BinaryStale) + count_of(entries, Classification::BuildInFlight)
            + count_of(entries, Classification::NoTarget) + count_of(entries, Classification::NotAnchored)
            + count_of(entries, Classification::SafeToClean) == entries.len(),
    decreases entries.len(),
{
    if entries.len() > 0 {
        law_counts_cover_entries(entries.drop_last());
    }
}

/// The summary lists the classifications in the code-point order of their
/// labels.
pub proof fn law_summary_in_label_order()
    ensures
        forall|i: int, j: int| 0 <= i < j < summary_order().len()
            ==> precedes(#[trigger] spec_label(summary_order()[i]), #[trigger] spec_label(summary_order()[j])),
{
    reveal_strlit("binary-stale");
    reveal_strlit("build-in-flight");
    reveal_strlit("no-target");
    reveal_strlit("not-anchored");
    reveal_strlit("safe-to-clean");
    let l0 = spec_label(Classification::BinaryStale);
    let l1 = spec_label(Classification::BuildInFlight);
    let l2 = spec_label(Classification::NoTarget);
    let l3 = spec_label(Classification::NotAnchored);
    let l4 = spec_label(Classification::SafeToClean);
    assert(differs_first_at(l0, l1, 1));
    assert(precedes(l0, l1));
    assert(differs_first_at(l1, l2, 0));
    assert(precedes(l1, l2));
    assert(differs_first_at(l2, l3, 2));
    assert(precedes(l2, l3));
    assert(differs_first_at(l3, l4, 0));
    assert(precedes(l3, l4));
    lemma_precedes_transitive(l0, l1, l2);
    lemma_precedes_transitive(l0, l2, l3);
    lemma_precedes_transitive(l0, l3, l4);
    lemma_precedes_transitive(l1, l2, l3);
    lemma_precedes_transitive(l1, l3, l4);
    lemma_precedes_transitive(l2, l3, l4);
    let o = summary_order();
    assert(o[0] == Classification::BinaryStale && o[1] == Classification::BuildInFlight
        && o[2] == Classification::NoTarget && o[3] == Classification::NotAnchored
        && o[4] == Classification::SafeToClean);
}


/// The target bytes of the entries at the positions `chosen`.
pub open spec fn selected_bytes(entries: Seq<RepoEntry>, chosen: Seq<usize>) -> int
    decreases chosen.len(),
{
    if chosen.len() == 0 {
        0
    } else {
        selected_bytes(entries, chosen.drop_last()) + entries[chosen.last() as int].target_bytes as int
    }
}

proof fn lemma_selected_bytes_frame(entries: Seq<RepoEntry>, shorter: Seq<RepoEntry>, chosen: Seq<usize>)
    requires
        shorter.len() <= entries.len(),
        forall|i: int| 0 <= i < shorter.len() ==> shorter[i] == entries[i],
        forall|k: int| 0 <= k < chosen.len() ==> #[trigger] chosen[k] < shorter.len(),
    ensures
        selected_bytes(entries, chosen) == selected_bytes(shorter, chosen),
    decreases chosen.len(),
{
    if chosen.len() > 0 {
        lemma_selected_bytes_frame(entries, shorter, chosen.drop_last());
        assert(chosen[chosen.len() - 1] < shorter.len());
    }
}

/// The total that `plan` reports as reclaimable is exactly the sum of the
/// target sizes of the repos that `apply` (without `--repo`) cleans.
pub proof fn law_plan_total_is_what_apply_cleans(entries: Seq<RepoEntry>, chosen: Seq<usize>)
    requires
        entries.len() <= usize::MAX,
        apply_selection(entries, None, chosen),
    ensures
        selected_bytes(entries, chosen) == reclaimable(entries),
    decreases entries.len(),
{
    if entries.len() == 0 {
        if chosen.len() > 0 {
            assert(chosen[0] < entries.len());
        }
        assert(chosen.len() == 0);
    } else {
        let n = entries.len() - 1;
        let pre = entries.drop_last();
        let last = entries.last();
        if last.classification == Classification::SafeToClean {
            assert(chosen_for_apply(entries[n], None));
            assert(chosen.contains(n as usize));
            let kn = choose|k: int| 0 <= k < chosen.len() && chosen[k] == n as usize;
            let m = chosen.len() - 1;
            assert(chosen[m] < entries.len());
            if kn < m {
                assert(chosen[kn] < chosen[m]);
            }
            assert(chosen[kn] == n);
            assert(kn == m);
            let rest = chosen.drop_last();
            assert forall|k: int| 0 <= k < rest.len() implies #[trigger] rest[k] < pre.len() by {
                assert(chosen[k] < chosen[m]);
            }
            assert forall|i: int| 0 <= i < pre.len() && chosen_for_apply(#[trigger] pre[i], None)
                implies rest.contains(i as usize) by {
                assert(entries[i] == pre[i]);
                assert(chosen.contains(i as usize));
                let k = choose|k: int| 0 <= k < chosen.len() && chosen[k] == i as usize;
                assert(chosen[m] == n);
                assert(k != m);
                assert(rest[k] == i as usize);
            }
            assert forall|k: int| 0 <= k < rest.len() implies chosen_for_apply(pre[#[trigger] rest[k] as int], None) by {
                assert(chosen[k] == rest[k]);
                assert(chosen_for_apply(entries[chosen[k] as int], None));
            }
            assert(apply_selection(pre, None, rest));
            law_plan_total_is_what_apply_cleans(pre, rest);
            lemma_selected_bytes_frame(entries, pre, rest);
        } else {
            assert forall|k: int| 0 <= k < chosen.len() implies #[trigger] chosen[k] < pre.len() by {
                assert(chosen_for_apply(entries[chosen[k] as int], None));
            }
            assert forall|i: int| 0 <= i < pre.len() && chosen_for_apply(#[trigger] pre[i], None)
                implies chosen.contains(i as usize) by {
                assert(entries[i] == pre[i]);
            }
            assert(apply_selection(pre, None, chosen));
            law_plan_total_is_what_apply_cleans(pre, chosen);
            lemma_selected_bytes_frame(entries, pre, chosen);
        }
    }
}


/// Row `i + 2` of the plan (after the header and the rule) shows entry `i`:
/// its name padded to 30 characters, a space, the label of its own
/// classification padded to 20, a space, then its target's size in SI units,
/// or `-` when the target holds nothing.
pub proof fn law_plan_rows_show_each_entry(entries: Seq<RepoEntry>, i: int)
    requires
        0 <= i < entries.len(),
    ensures
        ({
            let e = entries[i];
            let name = e.name@;
            let label = spec_label(e.classification);
            let name_width: int = if name.len() < 30 { 30 } else { name.len() as int };
            let label_width: int = if label.len() < 20 { 20 } else { label.len() as int };
            plan_lines(entries).len() > i + 2 && plan_lines(entries)[i + 2] == name
                + Seq::new((name_width - name.len()) as nat, |j: int| ' ') + seq![' '] + label
                + Seq::new((label_width - label.len()) as nat, |j: int| ' ') + seq![' ']
                + (if e.target_bytes > 0 { decimal_size(e.target_bytes) } else { seq!['-'] })
        }),
{
    reveal_strlit(" ");
    reveal_strlit("-");
    let rows = entries.map_values(|e: RepoEntry| table_row(e));
    let lines = plan_lines(entries);
    let head = seq![table_header(), table_rule()];
    let tail = seq![table_rule(), "Summary:"@] + summary_lines(entries, summary_order()) + seq![total_line(entries)];
    assert(lines =~= head + rows + tail);
    assert(lines[i + 2] == rows[i]);
    let e = entries[i];
    let name = e.name@;
    let label = spec_label(e.classification);
    let name_width: int = if name.len() < 30 { 30 } else { name.len() as int };
    let label_width: int = if label.len() < 20 { 20 } else { label.len() as int };
    assert(pad_right(name, 30) =~= name + Seq::new((name_width - name.len()) as nat, |j: int| ' '));
    assert(pad_right(label, 20) =~= label + Seq::new((label_width - label.len()) as nat, |j: int| ' '));
    assert(" "@ =~= seq![' ']);
    assert("-"@ =~= seq!['-']);
}

/// Different classifications are shown under different labels.
pub proof fn law_labels_distinct(c1: Classification, c2: Classification)
    requires
        c1 != c2,
    ensures
        spec_label(c1) != spec_label(c2),
{
    reveal_strlit("binary-stale");
    reveal_strlit("build-in-flight");
    reveal_strlit("no-target");
    reveal_strlit("not-anchored");
    reveal_strlit("safe-to-clean");
    if spec_label(c1) == spec_label(c2) {
        let a = spec_label(c1);
        assert(a.len() == spec_label(c2).len());
        assert(a[0] == spec_label(c2)[0]);
        assert(a[2] == spec_label(c2)[2]);
        assert(a[1] == spec_label(c2)[1]);
    }
}

} // verus!
