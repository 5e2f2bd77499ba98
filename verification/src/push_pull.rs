//! The parameter-synchronization protocols built on the multiplexer:
//! fetch-all (vehicle to local snapshot) and apply-from-file (local file to
//! vehicle), over the on-disk format of one `name,value` pair per line with
//! `#`-prefixed comment lines.

use vstd::prelude::*;
use crate::mavlink_stub::{MavlinkConnectionHandler, MavMessageType, Message, MuxError};
use crate::parameters::{has_name, Parameter, ParameterSnapshot};
use crate::util::is_float_text;

verus! {

/// Why a file line was rejected.
#[derive(Debug, Clone, Copy, PartialEq, Eq, Structural)]
pub enum ParseErrorKind {
    /// The line holds no comma, so no value field.
    MissingValue,
    /// The value field does not parse as a 32-bit float.
    InvalidValue,
}

/// A rejected file line, by its 1-based line number; the whole file
/// operation is aborted, and lines already sent are not rolled back.
#[derive(Debug, Clone, Copy, PartialEq, Eq, Structural)]
pub struct ParseError {
    pub line: usize,
    pub kind: ParseErrorKind,
}

/// The position of the first occurrence of `c`, if any.
pub open spec fn first_index_of(l: Seq<char>, c: char) -> Option<int>
    decreases l.len(),
{
    if l.len() == 0 {
        None
    } else if l[0] == c {
        Some(0)
    } else {
        match first_index_of(l.drop_first(), c) {
            Some(i) => Some(i + 1),
            None => None,
        }
    }
}

/// What `first_index_of` finds: the occurrence, and nothing earlier.
pub proof fn lemma_first_index_of(l: Seq<char>, c: char)
    ensures
        match first_index_of(l, c) {
            Some(i) => 0 <= i < l.len() && l[i] == c && forall|j: int| 0 <= j < i ==> l[j] != c,
            None => forall|j: int| 0 <= j < l.len() ==> l[j] != c,
        },
    decreases l.len(),
{
    if l.len() > 0 && l[0] != c {
        lemma_first_index_of(l.drop_first(), c);
        match first_index_of(l.drop_first(), c) {
            Some(i) => {
                assert forall|j: int| 0 <= j < i + 1 implies l[j] != c by {
                    if j > 0 {
                        assert(l[j] == l.drop_first()[j - 1]);
                    }
                }
            },
            None => {
                assert forall|j: int| 0 <= j < l.len() implies l[j] != c by {
                    if j > 0 {
                        assert(l[j] == l.drop_first()[j - 1]);
                    }
                }
            },
        }
    }
}

/// An occurrence with nothing earlier is what `first_index_of` finds.
pub proof fn lemma_first_index_of_is(l: Seq<char>, c: char, i: int)
    requires
        0 <= i < l.len(),
        l[i] == c,
        forall|j: int| 0 <= j < i ==> l[j] != c,
    ensures
        first_index_of(l, c) == Some(i),
    decreases l.len(),
{
    if i > 0 {
        assert forall|j: int| 0 <= j < i - 1 implies l.drop_first()[j] != c by {
            assert(l.drop_first()[j] == l[j + 1]);
        }
        assert(l.drop_first()[i - 1] == l[i]);
        lemma_first_index_of_is(l.drop_first(), c, i - 1);
    }
}

/// A line that the file format ignores: its first character is `#`.
pub open spec fn line_is_comment(l: Seq<char>) -> bool {
    l.len() > 0 && l[0] == '#'
}

/// How one file line reads: a comment is skipped; otherwise the name is
/// everything before the first comma, the value everything between the
/// first and the second comma (or the line's end), and the value must
/// denote a 32-bit float. A line with no comma has no value field.
pub open spec fn spec_parse_line(l: Seq<char>) -> Result<
    Option<(Seq<char>, Seq<char>)>,
    ParseErrorKind,
> {
    if line_is_comment(l) {
        Ok(None)
    } else {
        match first_index_of(l, ',') {
            None => Err(ParseErrorKind::MissingValue),
            Some(i) => {
                let name = l.take(i);
                let rest = l.skip(i + 1);
                let value = match first_index_of(rest, ',') {
                    None => rest,
                    Some(j) => rest.take(j),
                };
                if is_float_text(value) {
                    Ok(Some((name, value)))
                } else {
                    Err(ParseErrorKind::InvalidValue)
                }
            },
        }
    }
}

/// Find the first occurrence of `c` in the characters of a line.
fn find_char(cs: &Vec<char>, c: char) -> (r: Option<usize>)
    ensures
        match r {
            Some(i) => i < cs@.len() && first_index_of(cs@, c) == Some(i as int),
            None => first_index_of(cs@, c) is None,
        },
{
    let n = cs.len();
    let mut i: usize = 0;
    while i < n
        invariant
            i <= n == cs@.len(),
            forall|j: int| 0 <= j < i ==> cs@[j] != c,
        decreases n - i,
    {
        if cs[i] == c {
            proof {
                lemma_first_index_of_is(cs@, c, i as int);
            }
            return Some(i);
        }
        i = i + 1;
    }
    proof {
        lemma_first_index_of(cs@, c);
        match first_index_of(cs@, c) {
            Some(k) => {
                assert(cs@[k] == c);
            },
            None => {},
        }
    }
    None
}

/// The characters of `cs` from `from` up to `to`, as a string.
fn chars_to_string(cs: &Vec<char>, from: usize, to: usize) -> (r: String)
    requires
        from <= to <= cs@.len(),
    ensures
        r@ == cs@.subrange(from as int, to as int),
{
    let mut r = String::new();
    let mut i: usize = from;
    while i < to
        invariant
            from <= i <= to <= cs@.len(),
            r@ == cs@.subrange(from as int, i as int),
        decreases to - i,
    {
        r.push(cs[i]);
        proof {
            assert(r@ =~= cs@.subrange(from as int, i + 1));
        }
        i = i + 1;
    }
    r
}

/// Read one file line: a comment gives nothing, a well-formed line its
/// parameter, a malformed line the reason.
pub fn parse_line(line: &str) -> (r: Result<Option<Parameter>, ParseErrorKind>)
    ensures
        match r {
            Ok(None) => spec_parse_line(line@) == Ok::<Option<(Seq<char>, Seq<char>)>, ParseErrorKind>(None::<(Seq<char>, Seq<char>)>),
            Ok(Some(p)) => spec_parse_line(line@) == Ok::<Option<(Seq<char>, Seq<char>)>, ParseErrorKind>(Some((p.name@, p.value@))),
            Err(k) => spec_parse_line(line@) == Err::<Option<(Seq<char>, Seq<char>)>, ParseErrorKind>(k),
        },
{
    let cs = crate::util::str_chars(line);
    let n = cs.len();
    if n > 0 && cs[0] == '#' {
        return Ok(None);
    }
    match find_char(&cs, ',') {
        None => Err(ParseErrorKind::MissingValue),
        Some(i) => {
            let name = chars_to_string(&cs, 0, i);
            proof {
                assert(cs@.subrange(0, i as int) =~= cs@.take(i as int));
            }
            // the value field ends at the next comma, or at the line's end
            let rest_start = i + 1;
            let ghost rest = cs@.skip(rest_start as int);
            let mut end = n;
            let mut j: usize = rest_start;
            while j < n && end == n
                invariant
                    rest_start <= j <= n == cs@.len(),
                    end == n || (rest_start <= end < n && cs@[end as int] == ',' && forall|k: int|
                        rest_start <= k < end ==> cs@[k] != ','),
                    end == n ==> forall|k: int| rest_start <= k < j ==> cs@[k] != ',',
                decreases n - j,
            {
                if cs[j] == ',' {
                    end = j;
                }
                j = j + 1;
            }
            proof {
                if end == n {
                    assert forall|k: int| 0 <= k < rest.len() implies rest[k] != ',' by {
                        assert(rest[k] == cs@[k + rest_start]);
                    }
                    lemma_first_index_of(rest, ',');
                    match first_index_of(rest, ',') {
                        Some(w) => {
                            assert(rest[w] == ',');
                        },
                        None => {},
                    }
                    assert(cs@.subrange(rest_start as int, n as int) =~= rest);
                } else {
                    assert(rest[end - rest_start] == cs@[end as int]);
                    assert forall|k: int| 0 <= k < end - rest_start implies rest[k] != ',' by {
                        assert(rest[k] == cs@[k + rest_start]);
                    }
                    lemma_first_index_of_is(rest, ',', end - rest_start);
                    assert(cs@.subrange(rest_start as int, end as int) =~= rest.take(
                        end - rest_start,
                    ));
                }
            }
            let value = chars_to_string(&cs, rest_start, end);
            if crate::util::check_float_text(value.as_str()) {
                Ok(Some(Parameter { name, value }))
            } else {
                Err(ParseErrorKind::InvalidValue)
            }
        },
    }
}

/// The (name, value) pairs that applying the lines sends, in file order,
/// cut off at the first malformed line.
pub open spec fn sends_of(lines: Seq<Seq<char>>) -> Seq<(Seq<char>, Seq<char>)>
    decreases lines.len(),
{
    if lines.len() == 0 {
        Seq::empty()
    } else {
        match spec_parse_line(lines[0]) {
            Ok(opt) => match opt {
                Some(nv) => seq![nv] + sends_of(lines.drop_first()),
                None => sends_of(lines.drop_first()),
            },
            Err(_) => Seq::empty(),
        }
    }
}

/// The first malformed line: its 0-based index and the reason.
pub open spec fn first_error(lines: Seq<Seq<char>>) -> Option<(int, ParseErrorKind)>
    decreases lines.len(),
{
    if lines.len() == 0 {
        None
    } else {
        match spec_parse_line(lines[0]) {
            Err(k) => Some((0int, k)),
            Ok(_) => match first_error(lines.drop_first()) {
                Some(ik) => Some((ik.0 + 1, ik.1)),
                None => None,
            },
        }
    }
}

/// How one more line extends an error-free file's sends.
pub proof fn lemma_apply_push(lines: Seq<Seq<char>>, l: Seq<char>)
    requires
        first_error(lines) is None,
    ensures
        first_error(lines.push(l)) == (match spec_parse_line(l) {
            Err(k) => Some((lines.len() as int, k)),
            Ok(_) => None::<(int, ParseErrorKind)>,
        }),
        sends_of(lines.push(l)) == (match spec_parse_line(l) {
            Ok(opt) => match opt {
                Some(nv) => sends_of(lines).push(nv),
                None => sends_of(lines),
            },
            Err(_) => sends_of(lines),
        }),
    decreases lines.len(),
{
    reveal_with_fuel(sends_of, 3);
    reveal_with_fuel(first_error, 3);
    if lines.len() == 0 {
        assert(lines.push(l)[0] == l);
        assert(lines.push(l).drop_first() =~= Seq::<Seq<char>>::empty());
        match spec_parse_line(l) {
            Ok(opt) => match opt {
                Some(nv) => {
                    assert(seq![nv] + Seq::<(Seq<char>, Seq<char>)>::empty() =~= sends_of(
                        lines,
                    ).push(nv));
                },
                None => {},
            },
            Err(_) => {},
        }
    } else {
        assert(lines.push(l)[0] == lines[0]);
        assert(lines.push(l).drop_first() =~= lines.drop_first().push(l));
        lemma_apply_push(lines.drop_first(), l);
        match spec_parse_line(lines[0]) {
            Ok(opt) => match opt {
                Some(nv) => {
                    match spec_parse_line(l) {
                        Ok(opt2) => match opt2 {
                            Some(nv2) => {
                                assert(seq![nv] + sends_of(lines.drop_first()).push(nv2) =~= (
                                seq![nv] + sends_of(lines.drop_first())).push(nv2));
                            },
                            None => {},
                        },
                        Err(_) => {},
                    }
                },
                None => {},
            },
            Err(_) => {
                assert(false);
            },
        }
    }
}

/// A malformed line after an error-free prefix is the file's first error,
/// and nothing past it is sent.
pub proof fn lemma_error_at(lines: Seq<Seq<char>>, i: int, k: ParseErrorKind)
    requires
        0 <= i < lines.len(),
        first_error(lines.take(i)) is None,
        spec_parse_line(lines[i]) == Err::<Option<(Seq<char>, Seq<char>)>, ParseErrorKind>(k),
    ensures
        first_error(lines) == Some((i, k)),
        sends_of(lines) == sends_of(lines.take(i)),
    decreases lines.len(),
{
    if i == 0 {
        reveal_with_fuel(sends_of, 1);
    } else {
        assert(lines.take(i)[0] == lines[0]);
        assert(lines.take(i).drop_first() =~= lines.drop_first().take(i - 1));
        assert(lines.drop_first()[i - 1] == lines[i]);
        lemma_error_at(lines.drop_first(), i - 1, k);
    }
}

/// Why a file push failed: a malformed line, or the connection itself.
#[derive(Debug, Clone, Copy, PartialEq, Eq, Structural)]
pub enum PushError {
    Parse(ParseError),
    Mux(MuxError),
}

/// Apply a parameter file's lines: for each valid line, in file order, one
/// "set parameter" message — fire-and-forget, none awaited, and none sent
/// before the previous one. The first malformed line aborts the whole
/// operation with its 1-based number; messages of earlier lines stand and
/// are not rolled back.
pub fn apply_lines(lines: &Vec<String>) -> (r: (Vec<Message>, Option<ParseError>))
    ensures
        ({
            let sends = sends_of(lines.deep_view());
            &&& r.0@.len() == sends.len()
            &&& forall|k: int|
                0 <= k < sends.len() ==> (#[trigger] r.0@[k] matches Message::ParamSet {
                    name,
                    value,
                } && name@ == sends[k].0 && value@ == sends[k].1)
            &&& match first_error(lines.deep_view()) {
                Some(ik) => r.1 == Some(ParseError { line: (ik.0 + 1) as usize, kind: ik.1 }),
                None => r.1 is None,
            }
        }),
{
    let ghost dv = lines.deep_view();
    proof {
        assert(dv.len() == lines@.len());
    }
    let mut msgs: Vec<Message> = Vec::new();
    let n = lines.len();
    let mut i: usize = 0;
    while i < n
        invariant
            i <= n == lines@.len(),
            dv == lines.deep_view(),
            dv.len() == n,
            first_error(dv.take(i as int)) is None,
            msgs@.len() == sends_of(dv.take(i as int)).len(),
            forall|k: int|
                0 <= k < msgs@.len() ==> (#[trigger] msgs@[k] matches Message::ParamSet {
                    name,
                    value,
                } && name@ == sends_of(dv.take(i as int))[k].0 && value@ == sends_of(
                    dv.take(i as int),
                )[k].1),
        decreases n - i,
    {
        proof {
            assert(dv[i as int] == lines@[i as int]@);
            assert(dv.take(i + 1) =~= dv.take(i as int).push(dv[i as int]));
            lemma_apply_push(dv.take(i as int), dv[i as int]);
        }
        let line: &String = &lines[i];
        match parse_line(line.as_str()) {
            Ok(None) => {},
            Ok(Some(p)) => {
                msgs.push(Message::ParamSet { name: p.name, value: p.value });
            },
            Err(kind) => {
                proof {
                    lemma_error_at(dv, i as int, kind);
                }
                return (msgs, Some(ParseError { line: i + 1, kind }));
            },
        }
        i = i + 1;
    }
    proof {
        assert(dv.take(n as int) =~= dv);
    }
    (msgs, None)
}

/// Read configuration lines and push them to the vehicle, one message per
/// valid line, in file order. Fails fast when the dispatch loop has ended;
/// a malformed line aborts with its 1-based number, and the messages
/// already produced stand.
pub fn push(conn: &MavlinkConnectionHandler, lines: &Vec<String>) -> (r: (
    Vec<Message>,
    Option<PushError>,
))
    ensures
        conn.failed ==> r.0@.len() == 0 && r.1 == Some(PushError::Mux(MuxError::Closed)),
        !conn.failed ==> ({
            let sends = sends_of(lines.deep_view());
            &&& r.0@.len() == sends.len()
            &&& forall|k: int|
                0 <= k < sends.len() ==> (#[trigger] r.0@[k] matches Message::ParamSet {
                    name,
                    value,
                } && name@ == sends[k].0 && value@ == sends[k].1)
            &&& match first_error(lines.deep_view()) {
                Some(ik) => r.1 == Some(
                    PushError::Parse(ParseError { line: (ik.0 + 1) as usize, kind: ik.1 }),
                ),
                None => r.1 is None,
            }
        }),
{
    if conn.failed {
        return (Vec::new(), Some(PushError::Mux(MuxError::Closed)));
    }
    let (msgs, err) = apply_lines(lines);
    match err {
        Some(e) => (msgs, Some(PushError::Parse(e))),
        None => (msgs, None),
    }
}

/// Progress of a fetch: distinct names stored, the maximum declared total
/// seen so far, and whether the two have met.
#[derive(Debug, Clone, Copy, PartialEq, Eq, Structural)]
pub struct FetchProgress {
    pub stored: u64,
    pub total: u64,
    pub done: bool,
}

/// A running fetch-all: the snapshot being built, the largest declared
/// total seen so far (the authoritative count is only known once any reply
/// has arrived, and may be restated on every reply), the subscription's
/// channel, and the bounded wait's deadline.
#[derive(Debug, Clone, PartialEq)]
pub struct ParameterFetch {
    pub snapshot: ParameterSnapshot,
    pub max_total: u64,
    pub channel: u64,
    pub deadline: u64,
}

/// Start a fetch-all: subscribe to the parameter-value tag *before*
/// sending the request-all message — subscribing after sending could miss
/// replies that arrive in the race window. The returned message is the
/// exact value for the caller's transport write; the bounded wait ends at
/// `now + ttl`. Fails fast when the dispatch loop has ended.
pub fn fetch_parameters(conn: &mut MavlinkConnectionHandler, now: u64, ttl: u64) -> (r: Result<
    (ParameterFetch, Message),
    MuxError,
>)
    requires
        old(conn).wf(),
        old(conn).next_channel < u64::MAX,
        now + ttl <= u64::MAX,
    ensures
        final(conn).wf(),
        old(conn).failed ==> r == Err::<(ParameterFetch, Message), MuxError>(MuxError::Closed)
            && *final(conn) == *old(conn),
        !old(conn).failed ==> ({
            &&& r matches Ok((f, m)) && m == Message::ParamRequestList && f.wf()
                && f.snapshot.entries@.len() == 0 && f.max_total == 0 && f.channel == old(
                conn,
            ).next_channel && f.deadline == now + ttl
            &&& final(conn).pending@ == old(conn).pending@.push(
                crate::mavlink_stub::Subscription {
                    tag: MavMessageType::ParamValue,
                    channel: old(conn).next_channel,
                    recurring: true,
                },
            )
            &&& final(conn).next_channel == old(conn).next_channel + 1
            &&& final(conn).subscriptions == old(conn).subscriptions
            &&& final(conn).last_heartbeat == old(conn).last_heartbeat
            &&& !final(conn).failed
        }),
{
    let channel = match conn.subscribe(MavMessageType::ParamValue) {
        Ok(c) => c,
        Err(e) => {
            return Err(e);
        },
    };
    let request = match conn.send_default(&Message::ParamRequestList) {
        Ok(m) => m,
        Err(e) => {
            return Err(e);
        },
    };
    Ok(
        (
            ParameterFetch {
                snapshot: ParameterSnapshot::new(),
                max_total: 0,
                channel,
                deadline: now + ttl,
            },
            request,
        ),
    )
}

impl ParameterFetch {
    /// The snapshot stays a sorted mapping.
    pub open spec fn wf(&self) -> bool {
        self.snapshot.wf()
    }

    /// The fetch terminates successfully exactly when the distinct stored
    /// names equal the maximum declared total, and that total is positive.
    pub open spec fn spec_done(&self) -> bool {
        self.snapshot.spec_len() == self.max_total && self.max_total > 0
    }

    /// Fold one delivered message into the snapshot: a parameter value
    /// raises the running maximum of the declared total, upserts its name
    /// (a duplicate delivery overwrites the older value and never appends,
    /// so the distinct-name count is unaffected), and reports progress as
    /// (distinct names stored, maximum declared total); anything else is
    /// ignored. `done` holds exactly when the two numbers are equal and
    /// positive.
    pub fn on_message(&mut self, message: &Message) -> (r: Option<FetchProgress>)
        requires
            old(self).wf(),
        ensures
            final(self).wf(),
            final(self).channel == old(self).channel,
            final(self).deadline == old(self).deadline,
            match *message {
                Message::ParamValue { name, value, index, count } => {
                    &&& final(self).max_total == (if old(self).max_total >= count as u64 {
                        old(self).max_total
                    } else {
                        count as u64
                    })
                    &&& has_name(final(self).snapshot.entries@, name@)
                    &&& forall|i: int|
                        0 <= i < final(self).snapshot.entries@.len() && (#[trigger] final(self).snapshot.entries@[i]).name@ == name@
                            ==> final(self).snapshot.entries@[i].value@ == value@
                    &&& forall|n2: Seq<char>|
                        #[trigger] has_name(final(self).snapshot.entries@, n2) <==> has_name(
                            old(self).snapshot.entries@,
                            n2,
                        ) || n2 == name@
                    &&& final(self).snapshot.entries@.len() == old(self).snapshot.entries@.len()
                        + (if has_name(old(self).snapshot.entries@, name@) {
                        0int
                    } else {
                        1int
                    })
                    &&& final(self).snapshot.entries@.filter(|p: Parameter| p.name@ != name@)
                        == old(self).snapshot.entries@.filter(|p: Parameter| p.name@ != name@)
                    &&& r matches Some(p) && p.stored == final(self).snapshot.spec_len() && p.total
                        == final(self).max_total && p.done == final(self).spec_done()
                },
                _ => r is None && *final(self) == *old(self),
            },
    {
        match message {
            Message::ParamValue { name, value, index: _, count } => {
                let declared = *count as u64;
                if declared > self.max_total {
                    self.max_total = declared;
                }
                self.snapshot.upsert(name.clone(), value.clone());
                let stored = self.snapshot.len() as u64;
                let total = self.max_total;
                let done = stored == total && total > 0;
                Some(FetchProgress { stored, total, done })
            },
            _ => None,
        }
    }

    /// Whether the fetch has gathered every declared parameter.
    pub fn is_done(&self) -> (r: bool)
        ensures
            r == self.spec_done(),
    {
        self.snapshot.len() as u64 == self.max_total && self.max_total > 0
    }

    /// The bounded wait: a fetch that is not done when the clock reaches
    /// the deadline fails with a timeout instead of hanging forever.
    pub fn check_clock(&self, now: u64) -> (r: Result<(), MuxError>)
        ensures
            r == if now >= self.deadline && !self.spec_done() {
                Err::<(), MuxError>(MuxError::TimedOut)
            } else {
                Ok::<(), MuxError>(())
            },
    {
        if now >= self.deadline && !self.is_done() {
            Err(MuxError::TimedOut)
        } else {
            Ok(())
        }
    }

    /// The fetched parameters, sorted by name.
    pub fn into_parameters(self) -> (r: Vec<Parameter>)
        ensures
            r@ == self.snapshot.entries@,
    {
        self.snapshot.entries
    }
}

} // verus!
