//! The file image of a parameter snapshot: a generation-header comment
//! line, then one `name,value` line per entry, sorted by name. The image is
//! built so that applying it back sends exactly the snapshot's entries.

use vstd::prelude::*;
use crate::parameters::{Parameter, ParameterSnapshot};
use crate::push_pull::{
    first_error, lemma_apply_push, lemma_first_index_of, lemma_first_index_of_is, sends_of,
    spec_parse_line, ParseErrorKind,
};
use crate::util::{is_float_text, is_plain_char, lemma_float_text_plain};

verus! {

/// Relies on chrono's `Local::now` and the `Debug` format of `DateTime`,
/// which writes the moment as one nonempty ISO-8601 line: the text of the
/// current local time, with no line break in it.
#[verifier::external_body]
pub(crate) fn local_now_text() -> (r: String)
    ensures
        r@.len() > 0,
        forall|i: int| 0 <= i < r@.len() ==> r@[i] != '\n' && r@[i] != '\r',
{
    format!("{:?}", chrono::Local::now())
}

/// The generation header: a comment recording when and by what tool the
/// file was written.
pub open spec fn header_text(timestamp: Seq<char>, tool: Seq<char>) -> Seq<char> {
    "# Generated on "@ + timestamp + " by "@ + tool
}

/// Write the generation header line.
pub fn header_line(timestamp: &str, tool: &str) -> (r: String)
    ensures
        r@ == header_text(timestamp@, tool@),
        r@.len() > 0 && r@[0] == '#',
{
    let mut r = String::from_str("# Generated on ");
    r.append(timestamp);
    r.append(" by ");
    r.append(tool);
    proof {
        reveal_strlit("# Generated on ");
        reveal_strlit(" by ");
    }
    r
}

/// The file line of one entry: its name, a comma, its value.
pub open spec fn entry_line(p: Parameter) -> Seq<char> {
    p.name@ + seq![','] + p.value@
}

/// A name that the file format carries unharmed: no comma or line break in
/// it, and no leading comment mark.
pub open spec fn name_clean(n: Seq<char>) -> bool {
    &&& forall|i: int| 0 <= i < n.len() ==> n[i] != ',' && n[i] != '\n' && n[i] != '\r'
    &&& n.len() > 0 ==> n[0] != '#'
}

/// Every entry round-trips: clean name, float-text value.
pub open spec fn entries_clean(entries: Seq<Parameter>) -> bool {
    forall|i: int|
        0 <= i < entries.len() ==> name_clean((#[trigger] entries[i]).name@) && is_float_text(
            entries[i].value@,
        )
}

/// A clean entry's file line reads back as exactly that entry.
proof fn lemma_entry_line_parses(p: Parameter)
    requires
        name_clean(p.name@),
        is_float_text(p.value@),
    ensures
        spec_parse_line(entry_line(p)) == Ok::<Option<(Seq<char>, Seq<char>)>, ParseErrorKind>(
            Some((p.name@, p.value@)),
        ),
{
    let l = entry_line(p);
    let nl = p.name@.len() as int;
    lemma_float_text_plain(p.value@);
    assert forall|j: int| 0 <= j < nl implies l[j] == p.name@[j] by {}
    assert(l[nl] == ',');
    assert forall|j: int| 0 <= j < p.value@.len() implies l[nl + 1 + j] == p.value@[j] by {}
    // not a comment
    if p.name@.len() > 0 {
        assert(l[0] == p.name@[0]);
    } else {
        assert(l[0] == ',');
    }
    // the first comma sits right after the name
    lemma_first_index_of_is(l, ',', nl);
    // the rest is the value, and holds no further comma
    let rest = l.skip(nl + 1);
    assert(rest =~= p.value@);
    lemma_first_index_of(rest, ',');
    match crate::push_pull::first_index_of(rest, ',') {
        Some(w) => {
            assert(is_plain_char(rest[w]));
            assert(false);
        },
        None => {},
    }
    assert(l.take(nl) =~= p.name@);
}

/// The file image of the snapshot: the given header comment line, then one
/// `name,value` line per entry, in the snapshot's name order. When every
/// entry is clean — wire-derived entries are — applying the produced lines
/// back sends exactly one "set parameter" per entry, with the same name
/// and value, in the same order, whatever order the snapshot used
/// internally.
pub fn dump_file_content(snapshot: &ParameterSnapshot, timestamp: &str, tool: &str) -> (lines: Vec<
    String,
>)
    requires
        snapshot.wf(),
    ensures
        lines@.len() == 1 + snapshot.entries@.len(),
        lines.deep_view()[0] == header_text(timestamp@, tool@),
        forall|k: int|
            0 <= k < snapshot.entries@.len() ==> lines.deep_view()[k + 1] == entry_line(
                #[trigger] snapshot.entries@[k],
            ),
        entries_clean(snapshot.entries@) ==> ({
            let sends = sends_of(lines.deep_view());
            &&& first_error(lines.deep_view()) is None
            &&& sends.len() == snapshot.entries@.len()
            &&& forall|k: int|
                0 <= k < sends.len() ==> #[trigger] sends[k] == (
                snapshot.entries@[k].name@,
                snapshot.entries@[k].value@,
            )
        }),
{
    let ghost entries = snapshot.entries@;
    let mut lines: Vec<String> = Vec::new();
    let header = header_line(timestamp, tool);
    proof {
        assert(spec_parse_line(header@) == Ok::<Option<(Seq<char>, Seq<char>)>, ParseErrorKind>(
            None::<(Seq<char>, Seq<char>)>,
        ));
        lemma_apply_push(Seq::empty(), header@);
        reveal_with_fuel(sends_of, 1);
        reveal_with_fuel(first_error, 1);
    }
    lines.push(header);
    proof {
        assert(lines.deep_view() =~= Seq::<Seq<char>>::empty().push(
            header_text(timestamp@, tool@),
        ));
    }
    let n = snapshot.entries.len();
    let mut i: usize = 0;
    while i < n
        invariant
            i <= n == entries.len(),
            entries == snapshot.entries@,
            lines@.len() == 1 + i,
            lines.deep_view()[0] == header_text(timestamp@, tool@),
            forall|k: int|
                0 <= k < i ==> lines.deep_view()[k + 1] == entry_line(#[trigger] entries[k]),
            entries_clean(entries) ==> ({
                &&& first_error(lines.deep_view()) is None
                &&& sends_of(lines.deep_view()).len() == i
                &&& forall|k: int|
                    0 <= k < i ==> #[trigger] sends_of(lines.deep_view())[k] == (
                    entries[k].name@,
                    entries[k].value@,
                )
            }),
        decreases n - i,
    {
        let ghost before = lines.deep_view();
        let p = &snapshot.entries[i];
        let mut line = p.name.clone();
        line.push(',');
        line.append(p.value.as_str());
        proof {
            assert(line@ =~= entry_line(entries[i as int]));
            if entries_clean(entries) {
                lemma_entry_line_parses(entries[i as int]);
                lemma_apply_push(before, line@);
            }
        }
        lines.push(line);
        proof {
            assert(lines.deep_view() =~= before.push(line@));
        }
        i = i + 1;
    }
    lines
}

/// Dump the snapshot to its file image, headed by a comment line with the
/// current local time and the given tool name: one `name,value` line per
/// entry, sorted by name. Applying the image back sends exactly the
/// snapshot's entries, when they are clean.
pub fn dump(snapshot: &ParameterSnapshot, tool: &str) -> (lines: Vec<String>)
    requires
        snapshot.wf(),
    ensures
        lines@.len() == 1 + snapshot.entries@.len(),
        lines.deep_view()[0].len() > 0 && lines.deep_view()[0][0] == '#',
        forall|k: int|
            0 <= k < snapshot.entries@.len() ==> lines.deep_view()[k + 1] == entry_line(
                #[trigger] snapshot.entries@[k],
            ),
        entries_clean(snapshot.entries@) ==> ({
            let sends = sends_of(lines.deep_view());
            &&& first_error(lines.deep_view()) is None
            &&& sends.len() == snapshot.entries@.len()
            &&& forall|k: int|
                0 <= k < sends.len() ==> #[trigger] sends[k] == (
                snapshot.entries@[k].name@,
                snapshot.entries@[k].value@,
            )
        }),
{
    let stamp = local_now_text();
    let lines = dump_file_content(snapshot, stamp.as_str(), tool);
    proof {
        reveal_strlit("# Generated on ");
        assert(lines.deep_view()[0][0] == '#');
    }
    lines
}

} // verus!
