//! Parameters and the locally held snapshot of a vehicle's configuration.

use vstd::prelude::*;
use crate::definitions::{Definition, User};
use crate::mavlink_stub::{MavlinkConnectionHandler, Message, MuxError};
use crate::util::{lemma_seq_lt_irreflexive, lemma_seq_lt_trichotomy, seq_lt, str_lt};

verus! {

/// Represents a single parameter according to the telemetry specification:
/// a name of at most 16 characters in wire form, and a 32-bit float value,
/// carried as its decimal text.
#[derive(Debug, Clone, PartialEq)]
pub struct Parameter {
    pub name: String,
    pub value: String,
}

impl Parameter {
    /// An equal copy of the parameter.
    pub fn duplicate(&self) -> (r: Parameter)
        ensures
            r == *self,
    {
        Parameter { name: self.name.clone(), value: self.value.clone() }
    }

    /// Try to find a `Definition` for the parameter: the catalog's entry
    /// for its name, where the lookup found one; otherwise a sensible
    /// default marking the parameter unknown.
    pub fn definition(&self, looked_up: Option<&Definition>) -> (r: Definition)
        ensures
            match looked_up {
                Some(d) => r.same_as(d),
                None => {
                    &&& r.name@ == self.name@
                    &&& r.description@ == "This parameter is unknown."@
                    &&& r.display_name@ == "unknown"@
                    &&& r.user == User::Advanced
                    &&& r.data is None
                    &&& r.vehicle@ == "unknown"@
                },
            },
    {
        match looked_up {
            Some(def) => def.duplicate(),
            None => {
                let unknown = String::from_str("unknown");
                Definition {
                    name: self.name.clone(),
                    description: String::from_str("This parameter is unknown."),
                    display_name: unknown.clone(),
                    user: User::Advanced,
                    data: None,
                    vehicle: unknown,
                }
            },
        }
    }

    /// Send a "set parameter" message carrying this parameter to the
    /// vehicle: the returned message is the exact value for the caller's
    /// transport write. No confirmation is awaited.
    pub fn push(&self, conn: &MavlinkConnectionHandler) -> (r: Result<Message, MuxError>)
        ensures
            conn.failed ==> r == Err::<Message, MuxError>(MuxError::Closed),
            !conn.failed ==> r == Ok::<Message, MuxError>(
                Message::ParamSet { name: self.name, value: self.value },
            ),
    {
        let message = Message::ParamSet { name: self.name.clone(), value: self.value.clone() };
        conn.send_default(&message)
    }
}

/// Whether some entry carries the given name.
pub open spec fn has_name(s: Seq<Parameter>, n: Seq<char>) -> bool {
    exists|i: int| 0 <= i < s.len() && s[i].name@ == n
}

/// The locally held copy of the vehicle's parameters: a mapping from name
/// to value text, kept sorted by name, built incrementally; a newer entry
/// for a name overwrites the older one, never appended twice.
#[derive(Debug, Clone, PartialEq)]
pub struct ParameterSnapshot {
    pub entries: Vec<Parameter>,
}

impl ParameterSnapshot {
    /// Entries are strictly sorted by name, so names are distinct.
    pub open spec fn wf(&self) -> bool {
        forall|i: int, j: int|
            0 <= i < j < self.entries@.len() ==> seq_lt(
                (#[trigger] self.entries@[i]).name@,
                (#[trigger] self.entries@[j]).name@,
            )
    }

    /// The number of distinct names stored.
    pub open spec fn spec_len(&self) -> nat {
        self.entries@.len()
    }

    /// An empty snapshot.
    pub fn new() -> (r: Self)
        ensures
            r.wf(),
            r.entries@ == Seq::<Parameter>::empty(),
    {
        ParameterSnapshot { entries: Vec::new() }
    }

    /// The number of distinct names stored.
    pub fn len(&self) -> (r: usize)
        ensures
            r == self.spec_len(),
    {
        self.entries.len()
    }

    /// Store `value` under `name`: a new name is inserted in name order, a
    /// known name keeps its place and its value is overwritten — the later
    /// write wins and the distinct-name count is unaffected.
    pub fn upsert(&mut self, name: String, value: String)
        requires
            old(self).wf(),
        ensures
            final(self).wf(),
            has_name(final(self).entries@, name@),
            forall|i: int|
                0 <= i < final(self).entries@.len() && (#[trigger] final(self).entries@[i]).name@
                    == name@ ==> final(self).entries@[i].value == value,
            forall|n: Seq<char>|
                #[trigger] has_name(final(self).entries@, n) <==> has_name(
                    old(self).entries@,
                    n,
                ) || n == name@,
            final(self).entries@.len() == old(self).entries@.len() + (if has_name(
                old(self).entries@,
                name@,
            ) {
                0int
            } else {
                1int
            }),
            final(self).entries@.filter(|p: Parameter| p.name@ != name@)
                == old(self).entries@.filter(|p: Parameter| p.name@ != name@),
    {
        let ghost orig = self.entries@;
        let ghost other = |p: Parameter| p.name@ != name@;
        let n = self.entries.len();
        let mut k: usize = 0;
        while k < n && str_lt(self.entries[k].name.as_str(), name.as_str())
            invariant
                k <= n == self.entries@.len(),
                self.entries@ == orig,
                forall|j: int| 0 <= j < k ==> seq_lt((#[trigger] orig[j]).name@, name@),
            decreases n - k,
        {
            k = k + 1;
        }
        let entry = Parameter { name, value };
        proof {
            assert forall|j: int| k <= j < n implies !seq_lt(
                (#[trigger] orig[j]).name@,
                entry.name@,
            ) by {
                if j > k {
                    if seq_lt(orig[j].name@, entry.name@) {
                        lemma_seq_lt_trichotomy(orig[k as int].name@, entry.name@);
                        crate::util::lemma_seq_lt_transitive(
                            orig[k as int].name@,
                            orig[j].name@,
                            entry.name@,
                        );
                    }
                }
            }
        }
        if k < n && self.entries[k].name == entry.name {
            // overwrite in place
            self.entries.remove(k);
            self.entries.insert(k, entry);
            proof {
                let fin = self.entries@;
                assert(fin =~= orig.update(k as int, entry));
                assert forall|n2: Seq<char>| #[trigger]
                    has_name(fin, n2) <==> has_name(orig, n2) || n2 == entry.name@ by {
                    if has_name(orig, n2) {
                        let w = choose|i: int| 0 <= i < orig.len() && orig[i].name@ == n2;
                        assert(fin[w].name@ == n2);
                    }
                    if has_name(fin, n2) && n2 != entry.name@ {
                        let w = choose|i: int| 0 <= i < fin.len() && fin[i].name@ == n2;
                        assert(orig[w].name@ == n2);
                    }
                    if n2 == entry.name@ {
                        assert(fin[k as int].name@ == n2);
                    }
                }
                assert(orig.take(k as int) =~= fin.take(k as int));
                assert(orig.skip(k + 1) =~= fin.skip(k + 1));
                assert(orig =~= orig.take(k as int) + seq![orig[k as int]] + orig.skip(k + 1));
                assert(fin =~= fin.take(k as int) + seq![entry] + fin.skip(k + 1));
                Seq::filter_distributes_over_add(
                    orig.take(k as int) + seq![orig[k as int]],
                    orig.skip(k + 1),
                    other,
                );
                Seq::filter_distributes_over_add(orig.take(k as int), seq![orig[k as int]], other);
                Seq::filter_distributes_over_add(
                    fin.take(k as int) + seq![entry],
                    fin.skip(k + 1),
                    other,
                );
                Seq::filter_distributes_over_add(fin.take(k as int), seq![entry], other);
                reveal_with_fuel(Seq::filter, 2);
                assert(seq![orig[k as int]].drop_last() =~= Seq::<Parameter>::empty());
                assert(seq![entry].drop_last() =~= Seq::<Parameter>::empty());
                assert(seq![orig[k as int]].filter(other) =~= Seq::<Parameter>::empty());
                assert(seq![entry].filter(other) =~= Seq::<Parameter>::empty());
            }
        } else {
            // fresh name: every earlier entry is below it, every later one above
            proof {
                assert forall|j: int| k <= j < n implies seq_lt(
                    entry.name@,
                    (#[trigger] orig[j]).name@,
                ) by {
                    lemma_seq_lt_trichotomy(entry.name@, orig[j].name@);
                    if orig[j].name@ == entry.name@ {
                        if j == k {
                            assert(orig[k as int].name@ == entry.name@);
                        } else {
                            lemma_seq_lt_trichotomy(orig[k as int].name@, entry.name@);
                            crate::util::lemma_seq_lt_transitive(
                                entry.name@,
                                orig[k as int].name@,
                                orig[j].name@,
                            );
                            lemma_seq_lt_irreflexive(orig[j].name@);
                        }
                    }
                }
                if has_name(orig, entry.name@) {
                    let w = choose|i: int| 0 <= i < orig.len() && orig[i].name@ == entry.name@;
                    if w < k {
                        lemma_seq_lt_irreflexive(entry.name@);
                    }
                }
            }
            self.entries.insert(k, entry);
            proof {
                let fin = self.entries@;
                assert(fin =~= orig.take(k as int) + seq![entry] + orig.skip(k as int));
                assert forall|i: int, j: int| 0 <= i < j < fin.len() implies seq_lt(
                    (#[trigger] fin[i]).name@,
                    (#[trigger] fin[j]).name@,
                ) by {
                    if i < k && j == k {
                        assert(fin[i] == orig[i] && fin[j] == entry);
                    } else if i == k && j > k {
                        assert(fin[i] == entry && fin[j] == orig[j - 1]);
                    } else if i < k && j > k {
                        assert(fin[i] == orig[i] && fin[j] == orig[j - 1]);
                    } else if i > k {
                        assert(fin[i] == orig[i - 1] && fin[j] == orig[j - 1]);
                    } else {
                        assert(fin[i] == orig[i] && fin[j] == orig[j]);
                    }
                }
                assert forall|n2: Seq<char>| #[trigger]
                    has_name(fin, n2) <==> has_name(orig, n2) || n2 == entry.name@ by {
                    if has_name(orig, n2) {
                        let w = choose|i: int| 0 <= i < orig.len() && orig[i].name@ == n2;
                        if w < k {
                            assert(fin[w].name@ == n2);
                        } else {
                            assert(fin[w + 1].name@ == n2);
                        }
                    }
                    if has_name(fin, n2) && n2 != entry.name@ {
                        let w = choose|i: int| 0 <= i < fin.len() && fin[i].name@ == n2;
                        if w < k {
                            assert(orig[w].name@ == n2);
                        } else {
                            assert(orig[w - 1].name@ == n2);
                        }
                    }
                    assert(fin[k as int].name@ == entry.name@);
                }
                Seq::filter_distributes_over_add(
                    orig.take(k as int) + seq![entry],
                    orig.skip(k as int),
                    other,
                );
                Seq::filter_distributes_over_add(orig.take(k as int), seq![entry], other);
                Seq::filter_distributes_over_add(orig.take(k as int), orig.skip(k as int), other);
                reveal_with_fuel(Seq::filter, 2);
                assert(seq![entry].drop_last() =~= Seq::<Parameter>::empty());
                assert(seq![entry].filter(other) =~= Seq::<Parameter>::empty());
                assert(orig.take(k as int) + orig.skip(k as int) =~= orig);
            }
        }
    }
}

} // verus!
