//! Liveness probe: interpret the service manager's status reply (first
//! field of the first line is a process identifier) and scan a process
//! table for the supervised binary's name. The two signals are OR-ed.

use vstd::prelude::*;
use crate::text::starts_with;
use crate::text::str_starts_with;

verus! {

/// The supervised binary's name, the needle of every process-table scan.
pub open spec fn supervised_name() -> Seq<char> {
    "lapsus_rust"@
}

/// Executable counterpart of [`supervised_name`].
pub fn supervised_process_name() -> (r: &'static str)
    ensures
        r@ == supervised_name(),
{
    "lapsus_rust"
}

/// Model of one row of the process table.
pub ghost struct ProcessEntryView {
    pub pid: u32,
    pub name: Seq<char>,
}

/// One row of the process table: identifier and executable name.
pub struct ProcessEntry {
    pub pid: u32,
    pub name: String,
}

impl View for ProcessEntry {
    type V = ProcessEntryView;

    open spec fn view(&self) -> ProcessEntryView {
        ProcessEntryView { pid: self.pid, name: self.name@ }
    }
}

/// The model of a whole table.
pub open spec fn entries_view(es: Seq<ProcessEntry>) -> Seq<ProcessEntryView> {
    es.map_values(|e: ProcessEntry| e@)
}

/// A process name counts as the supervised binary on an exact or prefix
/// match of the known binary name.
pub open spec fn name_matches(name: Seq<char>) -> bool {
    starts_with(name, supervised_name())
}

/// Some row of the table matches the supervised binary.
pub open spec fn table_has_match(es: Seq<ProcessEntryView>) -> bool {
    exists|i: int| 0 <= i < es.len() && name_matches(es[i].name)
}

/// Scan a process table for the supervised binary's name.
pub fn process_table_has_match(entries: &Vec<ProcessEntry>) -> (r: bool)
    ensures
        r == table_has_match(entries_view(entries@)),
{
    let mut i: usize = 0;
    while i < entries.len()
        invariant
            i <= entries@.len(),
            forall|t: int| 0 <= t < i ==> !name_matches(entries_view(entries@)[t].name),
        decreases entries@.len() - i,
    {
        if str_starts_with(entries[i].name.as_str(), supervised_process_name()) {
            assert(name_matches(entries_view(entries@)[i as int].name));
            return true;
        }
        i += 1;
    }
    false
}

/// The identifiers of the rows that match, in table order.
pub open spec fn matching_pids_spec(es: Seq<ProcessEntryView>) -> Seq<u32>
    decreases es.len(),
{
    if es.len() == 0 {
        Seq::empty()
    } else {
        matching_pids_spec(es.drop_last()) + (if name_matches(es.last().name) {
            seq![es.last().pid]
        } else {
            Seq::empty()
        })
    }
}

/// Collect the identifiers of every matching row, in table order; a direct
/// stop signals all of them, defensively against duplicate instances.
pub fn matching_pids(entries: &Vec<ProcessEntry>) -> (r: Vec<u32>)
    ensures
        r@ == matching_pids_spec(entries_view(entries@)),
{
    let ghost all = entries_view(entries@);
    let mut r: Vec<u32> = Vec::new();
    let mut i: usize = 0;
    while i < entries.len()
        invariant
            i <= entries@.len(),
            all == entries_view(entries@),
            r@ == matching_pids_spec(all.take(i as int)),
        decreases entries@.len() - i,
    {
        proof {
            assert(all.take(i + 1).drop_last() =~= all.take(i as int));
            assert(all.take(i + 1).last() == all[i as int]);
        }
        if str_starts_with(entries[i].name.as_str(), supervised_process_name()) {
            r.push(entries[i].pid);
        }
        i += 1;
    }
    proof {
        assert(all.take(entries@.len() as int) =~= all);
    }
    r
}

/// The two signals are OR-ed, never AND-ed: either alone is sufficient
/// evidence of liveness.
pub open spec fn probe_live(service_live: bool, table_match: bool) -> bool {
    service_live || table_match
}

/// Combine the service manager's signal with the process-table signal.
pub fn combine_probe(service_live: bool, table_match: bool) -> (r: bool)
    ensures
        r == probe_live(service_live, table_match),
{
    service_live || table_match
}

/// A live service-manager report alone decides liveness, whatever the
/// process-table scan found.
pub proof fn lemma_probe_or_semantics(table_match: bool)
    ensures
        probe_live(true, table_match) == true,
{
}

/// Whitespace that separates fields within a status line.
pub open spec fn is_field_ws(c: char) -> bool {
    c == ' ' || c == '\t' || c == '\r'
}

/// A decimal digit.
pub open spec fn is_digit(c: char) -> bool {
    48 <= c as u32 <= 57
}

/// The value of a decimal digit.
pub open spec fn digit_val(c: char) -> int {
    c as u32 - 48
}

/// The prefix of `s` up to (excluding) the first line break.
pub open spec fn first_line(s: Seq<char>) -> Seq<char>
    decreases s.len(),
{
    if s.len() == 0 {
        s
    } else if s[0] == '\n' {
        Seq::empty()
    } else {
        seq![s[0]] + first_line(s.skip(1))
    }
}

/// `s` without its leading field whitespace.
pub open spec fn skip_field_ws(s: Seq<char>) -> Seq<char>
    decreases s.len(),
{
    if s.len() > 0 && is_field_ws(s[0]) {
        skip_field_ws(s.skip(1))
    } else {
        s
    }
}

/// The leading maximal run of non-whitespace of `s`.
pub open spec fn take_field(s: Seq<char>) -> Seq<char>
    decreases s.len(),
{
    if s.len() > 0 && !is_field_ws(s[0]) {
        seq![s[0]] + take_field(s.skip(1))
    } else {
        Seq::empty()
    }
}

/// The first whitespace-separated field of the first line of `s`.
pub open spec fn first_field(s: Seq<char>) -> Seq<char> {
    take_field(skip_field_ws(first_line(s)))
}

/// The value of a digit string, most significant digit first.
pub open spec fn numeral_value(s: Seq<char>) -> int
    decreases s.len(),
{
    if s.len() == 0 {
        0
    } else {
        numeral_value(s.drop_last()) * 10 + digit_val(s.last())
    }
}

/// A field that reads as a process identifier: nonempty, all digits, and
/// within the range of a 32-bit signed identifier.
pub open spec fn is_pid_numeral(s: Seq<char>) -> bool {
    s.len() > 0 && (forall|i: int| 0 <= i < s.len() ==> is_digit(s[i])) && numeral_value(s)
        <= 0x7fffffff
}

/// The service manager's query reports a live process: the command
/// succeeded and the first field of its first output line is a process
/// identifier (a dash or anything else there means "no process").
pub open spec fn service_reports_pid(status_ok: bool, stdout: Seq<char>) -> bool {
    status_ok && is_pid_numeral(first_field(stdout))
}

proof fn lemma_first_line_prefix(s: Seq<char>, e: int)
    requires
        0 <= e <= s.len(),
        forall|j: int| 0 <= j < e ==> s[j] != '\n',
        e == s.len() || s[e] == '\n',
    ensures
        first_line(s) == s.take(e),
    decreases e,
{
    if s.len() == 0 {
        assert(first_line(s) =~= s.take(e));
    } else if e == 0 {
        assert(first_line(s) =~= s.take(0));
    } else {
        lemma_first_line_prefix(s.skip(1), e - 1);
        assert(first_line(s) == seq![s[0]] + s.skip(1).take(e - 1));
        assert(seq![s[0]] + s.skip(1).take(e - 1) =~= s.take(e));
    }
}

proof fn lemma_skip_ws_at(s: Seq<char>, k: int)
    requires
        0 <= k <= s.len(),
        forall|j: int| 0 <= j < k ==> is_field_ws(s[j]),
        k == s.len() || !is_field_ws(s[k]),
    ensures
        skip_field_ws(s) == s.skip(k),
    decreases k,
{
    if k == 0 {
        assert(skip_field_ws(s) =~= s.skip(0));
    } else {
        lemma_skip_ws_at(s.skip(1), k - 1);
        assert(s.skip(1).skip(k - 1) =~= s.skip(k));
    }
}

proof fn lemma_take_field_at(s: Seq<char>, m: int)
    requires
        0 <= m <= s.len(),
        forall|j: int| 0 <= j < m ==> !is_field_ws(s[j]),
        m == s.len() || is_field_ws(s[m]),
    ensures
        take_field(s) == s.take(m),
    decreases m,
{
    if m == 0 {
        assert(take_field(s) =~= s.take(0));
    } else {
        lemma_take_field_at(s.skip(1), m - 1);
        assert(take_field(s) == seq![s[0]] + s.skip(1).take(m - 1));
        assert(seq![s[0]] + s.skip(1).take(m - 1) =~= s.take(m));
    }
}

proof fn lemma_numeral_prefix_le(s: Seq<char>, k: int)
    requires
        0 <= k <= s.len(),
        forall|i: int| 0 <= i < s.len() ==> is_digit(s[i]),
    ensures
        0 <= numeral_value(s.take(k)) <= numeral_value(s),
    decreases s.len(),
{
    if s.len() == 0 {
        assert(s.take(k) =~= s);
    } else if k == s.len() {
        assert(s.take(k) =~= s);
        lemma_numeral_prefix_le(s.drop_last(), s.len() - 1);
        assert(numeral_value(s) == numeral_value(s.drop_last()) * 10 + digit_val(s.last()));
    } else {
        assert(s.drop_last().take(k) =~= s.take(k));
        lemma_numeral_prefix_le(s.drop_last(), k);
        assert(numeral_value(s) == numeral_value(s.drop_last()) * 10 + digit_val(s.last()));
    }
}

fn field_ws_char(c: char) -> (r: bool)
    ensures
        r == is_field_ws(c),
{
    c == ' ' || c == '\t' || c == '\r'
}

/// Interpret the service manager's status reply.
pub fn service_output_reports_pid(status_ok: bool, stdout: &str) -> (r: bool)
    ensures
        r == service_reports_pid(status_ok, stdout@),
{
    if !status_ok {
        return false;
    }
    let n = stdout.unicode_len();
    // End of the first line.
    let mut e: usize = 0;
    while e < n && stdout.get_char(e) != '\n'
        invariant
            n == stdout@.len(),
            e <= n,
            forall|j: int| 0 <= j < e ==> stdout@[j] != '\n',
        decreases n - e,
    {
        e += 1;
    }
    proof {
        lemma_first_line_prefix(stdout@, e as int);
    }
    // Start of the first field.
    let mut t0: usize = 0;
    while t0 < e && field_ws_char(stdout.get_char(t0))
        invariant
            n == stdout@.len(),
            t0 <= e <= n,
            forall|j: int| 0 <= j < t0 ==> is_field_ws(stdout@[j]),
        decreases e - t0,
    {
        t0 += 1;
    }
    let ghost line = stdout@.take(e as int);
    proof {
        lemma_skip_ws_at(line, t0 as int);
    }
    // End of the first field.
    let mut t1: usize = t0;
    while t1 < e && !field_ws_char(stdout.get_char(t1))
        invariant
            n == stdout@.len(),
            t0 <= t1 <= e <= n,
            forall|j: int| t0 <= j < t1 ==> !is_field_ws(stdout@[j]),
        decreases e - t1,
    {
        t1 += 1;
    }
    let ghost rest = line.skip(t0 as int);
    proof {
        lemma_take_field_at(rest, t1 - t0 as int);
        assert(rest.take(t1 - t0 as int) =~= stdout@.subrange(t0 as int, t1 as int));
    }
    let ghost field = stdout@.subrange(t0 as int, t1 as int);
    proof {
        assert(field == first_field(stdout@));
    }
    // `field` is now first_field(stdout@); read it as a decimal identifier.
    if t1 == t0 {
        return false;
    }
    let mut j: usize = t0;
    while j < t1
        invariant
            n == stdout@.len(),
            t0 <= j <= t1 <= n,
            t0 < t1,
            status_ok,
            field == stdout@.subrange(t0 as int, t1 as int),
            field == first_field(stdout@),
            forall|t: int| t0 <= t < j ==> is_digit(stdout@[t]),
        decreases t1 - j,
    {
        proof {
            assert(field[j - t0 as int] == stdout@[j as int]);
        }
        let c = stdout.get_char(j) as u32;
        if !(48 <= c && c <= 57) {
            assert(!is_digit(field[j - t0 as int]));
            assert(!is_pid_numeral(field));
            return false;
        }
        j += 1;
    }
    assert(forall|i: int| 0 <= i < field.len() ==> is_digit(field[i]));
    let mut acc: u64 = 0;
    let mut k: usize = t0;
    while k < t1
        invariant
            n == stdout@.len(),
            t0 <= k <= t1 <= n,
            t0 < t1,
            status_ok,
            field == stdout@.subrange(t0 as int, t1 as int),
            field == first_field(stdout@),
            forall|i: int| 0 <= i < field.len() ==> is_digit(field[i]),
            acc == numeral_value(field.take(k - t0 as int)),
            acc <= 0x7fffffff,
        decreases t1 - k,
    {
        proof {
            assert(field[k - t0 as int] == stdout@[k as int]);
            assert(is_digit(stdout@[k as int]));
        }
        let d = (stdout.get_char(k) as u32 - 48) as u64;
        proof {
            assert(field.take(k + 1 - t0 as int).drop_last() =~= field.take(k - t0 as int));
            assert(field.take(k + 1 - t0 as int).last() == field[k - t0 as int]);
        }
        let next = acc * 10 + d;
        if next > 0x7fffffff {
            proof {
                assert(next == numeral_value(field.take(k + 1 - t0 as int)));
                lemma_numeral_prefix_le(field, k + 1 - t0 as int);
                assert(numeral_value(field) > 0x7fffffff);
            }
            return false;
        }
        acc = next;
        k += 1;
    }
    proof {
        assert(field.take(t1 - t0 as int) =~= field);
    }
    true
}

} // verus!
