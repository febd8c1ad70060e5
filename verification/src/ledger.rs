use vstd::prelude::*;
use crate::paths::{join, path_join};
use crate::plan::Classification;
use crate::text::chars_of;

verus! {

/// One reclamation as the ledger records it.
#[derive(Debug)]
pub struct LedgerEntry {
    pub repo: String,
    pub bytes_freed: u64,
    pub classification: Classification,
    pub ts: String,
}

impl LedgerEntry {
    /// The record of freeing `bytes_freed` bytes from `repo` at time `ts`.
    pub fn new(repo: &str, bytes_freed: u64, classification: &Classification, ts: &str) -> (e: LedgerEntry)
        ensures
            e.repo@ == repo@,
            e.bytes_freed == bytes_freed,
            e.classification == *classification,
            e.ts@ == ts@,
    {
        LedgerEntry {
            repo: String::from_str(repo),
            bytes_freed,
            classification: *classification,
            ts: String::from_str(ts),
        }
    }
}

/// The directory of the shared hold under the home directory `home`.
pub open spec fn spec_hold_dir(home: Seq<char>) -> Seq<char> {
    path_join(path_join(home, "wintermute"@), ".hold"@)
}

/// The ledger file under the home directory `home`.
pub open spec fn spec_default_path(home: Seq<char>) -> Seq<char> {
    path_join(spec_hold_dir(home), "migrate-ledger.jsonl"@)
}

/// `~/wintermute/.hold`, the directory that holds the ledger.
pub fn hold_dir(home: &str) -> (dir: String)
    ensures
        dir@ == spec_hold_dir(home@),
{
    let root = join(home, "wintermute");
    join(root.as_str(), ".hold")
}

/// `~/wintermute/.hold/migrate-ledger.jsonl`, where the ledger lives.
pub fn default_path(home: &str) -> (path: String)
    ensures
        path@ == spec_default_path(home@),
{
    let dir = hold_dir(home);
    join(dir.as_str(), "migrate-ledger.jsonl")
}

/// The text holds no line break.
pub open spec fn single_line(s: Seq<char>) -> bool {
    forall|i: int| 0 <= i < s.len() ==> s[i] != '\n'
}

/// The position of the first line break in `s`, or its length if it has none.
pub open spec fn first_break(s: Seq<char>) -> int
    decreases s.len(),
{
    if s.len() == 0 {
        0
    } else if s[0] == '\n' {
        0
    } else {
        1 + first_break(s.drop_first())
    }
}

/// The first line break is where `first_break` says, and none comes before it.
pub proof fn lemma_first_break_bounds(s: Seq<char>)
    ensures
        0 <= first_break(s) <= s.len(),
        first_break(s) < s.len() ==> s[first_break(s)] == '\n',
        forall|j: int| 0 <= j < first_break(s) ==> s[j] != '\n',
    decreases s.len(),
{
    if s.len() > 0 && s[0] != '\n' {
        lemma_first_break_bounds(s.drop_first());
        assert forall|j: int| 0 <= j < first_break(s) implies s[j] != '\n' by {
            if j > 0 {
                assert(s[j] == s.drop_first()[j - 1]);
            }
        }
    }
}

/// The records of a ledger text: the pieces between line breaks, where a
/// final line break does not open an empty record.
pub open spec fn records(s: Seq<char>) -> Seq<Seq<char>>
    decreases s.len(),
{
    if s.len() == 0 {
        seq![]
    } else {
        let k = first_break(s);
        proof {
            lemma_first_break_bounds(s);
        }
        if k >= s.len() {
            seq![s]
        } else {
            seq![s.take(k)].add(records(s.skip(k + 1)))
        }
    }
}

/// The line that the ledger gets for one serialized entry: the JSON text and
/// a line break; `None` if the text itself holds a line break, which would
/// split the record.
pub fn record_line(json: &str) -> (line: Option<String>)
    ensures
        line is Some <==> single_line(json@),
        line matches Some(l) ==> l@ == json@.push('\n'),
{
    let chars = chars_of(json);
    let mut i: usize = 0;
    while i < chars.len()
        invariant
            chars@ == json@,
            i <= chars.len(),
            forall|j: int| 0 <= j < i ==> json@[j] != '\n',
        decreases chars.len() - i,
    {
        if chars[i] == '\n' {
            return None;
        }
        i = i + 1;
    }
    let mut line = String::from_str(json);
    proof {
        reveal_strlit("\n");
    }
    line.append("\n");
    Some(line)
}


/// A position with a line break (or the end) and none before it is the first break.
proof fn lemma_first_break_at(s: Seq<char>, k: int)
    requires
        0 <= k <= s.len(),
        k < s.len() ==> s[k] == '\n',
        forall|j: int| 0 <= j < k ==> s[j] != '\n',
    ensures
        first_break(s) == k,
{
    lemma_first_break_bounds(s);
    let f = first_break(s);
    if f < k {
        assert(s[f] == '\n');
    } else if f > k {
        assert(s[k] == '\n');
    }
}

/// Appending the line of one entry to a ledger whose text is empty or ends in
/// a line break adds exactly that entry as a new last record and leaves every
/// earlier record as it was: the ledger only grows at its end.
pub proof fn law_append_adds_one_record(contents: Seq<char>, json: Seq<char>)
    requires
        single_line(json),
        contents.len() == 0 || contents.last() == '\n',
    ensures
        records(contents + json.push('\n')) == records(contents).push(json),
        (contents + json.push('\n')).last() == '\n',
    decreases contents.len(),
{
    let tail = json.push('\n');
    let s = contents + tail;
    if contents.len() == 0 {
        assert(s =~= tail);
        lemma_first_break_at(tail, json.len() as int);
        assert(tail.take(json.len() as int) =~= json);
        assert(tail.skip(json.len() as int + 1) =~= Seq::<char>::empty());
        assert(records(Seq::<char>::empty()) =~= Seq::<Seq<char>>::empty());
        assert(records(contents) =~= Seq::<Seq<char>>::empty());
        assert(records(s) =~= seq![json]);
    } else {
        lemma_first_break_bounds(contents);
        let k = first_break(contents);
        assert(k < contents.len()) by {
            if k >= contents.len() {
                assert(contents[contents.len() - 1] == '\n');
            }
        }
        lemma_first_break_at(s, k);
        let rest = contents.skip(k + 1);
        assert(rest.len() == 0 || rest.last() == '\n') by {
            if rest.len() > 0 {
                assert(rest.last() == contents.last());
            }
        }
        law_append_adds_one_record(rest, json);
        assert(s.take(k) =~= contents.take(k));
        assert(s.skip(k + 1) =~= rest + tail);
        assert(records(s) == seq![contents.take(k)].add(records(rest + tail)));
        assert(records(contents) == seq![contents.take(k)].add(records(rest)));
        assert(records(s) =~= records(contents).push(json));
    }
}


/// The ledger text after appending the lines of `entries`, in order, to an
/// empty ledger.
pub open spec fn ledger_text(entries: Seq<Seq<char>>) -> Seq<char>
    decreases entries.len(),
{
    if entries.len() == 0 {
        seq![]
    } else {
        ledger_text(entries.drop_last()) + entries.last().push('\n')
    }
}

/// Reading the records of a ledger gives back every appended entry, in the
/// order of appending.
pub proof fn law_ledger_reads_back(entries: Seq<Seq<char>>)
    requires
        forall|i: int| 0 <= i < entries.len() ==> single_line(#[trigger] entries[i]),
    ensures
        records(ledger_text(entries)) == entries,
        ledger_text(entries).len() == 0 || ledger_text(entries).last() == '\n',
    decreases entries.len(),
{
    if entries.len() == 0 {
        assert(records(ledger_text(entries)) =~= entries);
    } else {
        let before = entries.drop_last();
        law_ledger_reads_back(before);
        law_append_adds_one_record(ledger_text(before), entries.last());
        assert(before.push(entries.last()) =~= entries);
    }
}

} // verus!
