//! Static metadata about known parameters: display name, description, and
//! the legal values, used to decide how to prompt for a new value. The
//! catalog that maps names to definitions is loaded and held by the caller;
//! this module gives the data its shape.

use vstd::prelude::*;

verus! {

/// Whose concern a parameter is.
#[derive(Debug, Clone, Copy, PartialEq, Eq, Structural)]
pub enum User {
    Standard,
    Advanced,
    User,
}

impl Default for User {
    /// An unmarked parameter is a standard one.
    fn default() -> (r: Self)
        ensures
            r == User::Standard,
    {
        User::Standard
    }
}

/// The legal values of a parameter: a closed range of floats (carried as
/// their decimal text), a mapping of named values, or a bitmask of named
/// bits. A mapping is kept sorted by key.
#[derive(Debug, Clone, PartialEq)]
pub enum DataType {
    Range { high: String, low: String },
    Bitmask(Vec<(i64, String)>),
    Values(Vec<(i64, String)>),
}

/// What is known about one named parameter.
#[derive(Debug, Clone)]
pub struct Definition {
    pub name: String,
    pub description: String,
    pub display_name: String,
    pub user: User,
    pub data: Option<DataType>,
    pub vehicle: String,
}

impl PartialEq for Definition {
    /// Definitions are the same when they describe the same name.
    fn eq(&self, other: &Definition) -> (r: bool) {
        self.name == other.name
    }
}

impl vstd::std_specs::cmp::PartialEqSpecImpl for Definition {
    open spec fn obeys_eq_spec() -> bool {
        true
    }

    open spec fn eq_spec(&self, other: &Definition) -> bool {
        self.name@ == other.name@
    }
}

/// An equal copy of a key-to-text mapping.
fn clone_pairs(v: &Vec<(i64, String)>) -> (r: Vec<(i64, String)>)
    ensures
        r@ == v@,
{
    let mut r: Vec<(i64, String)> = Vec::new();
    let n = v.len();
    let mut i: usize = 0;
    while i < n
        invariant
            i <= n == v@.len(),
            r@ == v@.take(i as int),
        decreases n - i,
    {
        let pair = &v[i];
        r.push((pair.0, pair.1.clone()));
        proof {
            assert(r@ =~= v@.take(i + 1));
        }
        i = i + 1;
    }
    proof {
        assert(v@.take(n as int) =~= v@);
    }
    r
}

impl DataType {
    /// The two values describe the same legal values: the same variant
    /// with the same texts and keys.
    pub open spec fn same_as(&self, other: &DataType) -> bool {
        match (self, other) {
            (DataType::Range { high: h1, low: l1 }, DataType::Range { high: h2, low: l2 }) => h1@
                == h2@ && l1@ == l2@,
            (DataType::Bitmask(m1), DataType::Bitmask(m2)) => m1.deep_view() == m2.deep_view(),
            (DataType::Values(m1), DataType::Values(m2)) => m1.deep_view() == m2.deep_view(),
            _ => false,
        }
    }

    /// A copy of the data type, describing the same legal values.
    pub fn duplicate(&self) -> (r: DataType)
        ensures
            r.same_as(self),
    {
        let r = match self {
            DataType::Range { high, low } => DataType::Range {
                high: high.clone(),
                low: low.clone(),
            },
            DataType::Bitmask(m) => DataType::Bitmask(clone_pairs(m)),
            DataType::Values(m) => DataType::Values(clone_pairs(m)),
        };
        proof {
            match (&r, self) {
                (DataType::Bitmask(m1), DataType::Bitmask(m2)) => {
                    assert(m1.deep_view() =~= m2.deep_view());
                },
                (DataType::Values(m1), DataType::Values(m2)) => {
                    assert(m1.deep_view() =~= m2.deep_view());
                },
                _ => {},
            }
        }
        r
    }
}

impl Definition {
    /// The two values describe the same parameter in the same words.
    pub open spec fn same_as(&self, other: &Definition) -> bool {
        &&& self.name@ == other.name@
        &&& self.description@ == other.description@
        &&& self.display_name@ == other.display_name@
        &&& self.user == other.user
        &&& match (&self.data, &other.data) {
            (Some(d1), Some(d2)) => d1.same_as(d2),
            (None, None) => true,
            _ => false,
        }
        &&& self.vehicle@ == other.vehicle@
    }

    /// A copy of the definition, describing the same parameter.
    pub fn duplicate(&self) -> (r: Definition)
        ensures
            r.same_as(self),
    {
        Definition {
            name: self.name.clone(),
            description: self.description.clone(),
            display_name: self.display_name.clone(),
            user: self.user,
            data: match &self.data {
                Some(d) => Some(d.duplicate()),
                None => None,
            },
            vehicle: self.vehicle.clone(),
        }
    }
}

/// The mask combined from the chosen entries: each chosen entry
/// contributes the bit at its numeric value.
pub open spec fn spec_bitmask(items: Seq<i64>, chosen: Seq<usize>) -> i64
    decreases chosen.len(),
{
    if chosen.len() == 0 {
        0
    } else {
        spec_bitmask(items, chosen.drop_last()) | (1i64 << items[chosen.last() as int])
    }
}

/// Which of the low 32 mask bits are set in the value, lowest first.
pub fn mask_bits(original: i64) -> (r: Vec<bool>)
    ensures
        r@.len() == 32,
        forall|b: int| 0 <= b < 32 ==> r@[b] == ((original >> b) & 1 == 1),
{
    let mut r: Vec<bool> = Vec::new();
    let mut bit: u64 = 0;
    while bit < 32
        invariant
            bit <= 32,
            r@.len() == bit,
            forall|b: int| 0 <= b < bit ==> r@[b] == ((original >> b) & 1 == 1),
        decreases 32 - bit,
    {
        r.push((original >> bit) & 1 == 1);
        bit = bit + 1;
    }
    r
}

/// When the user ticks a set of entries of a bitmask parameter, the new
/// value is the union of the chosen entries' bits.
pub fn bitmask_of_selection(items: &Vec<Selection>, chosen: &Vec<usize>) -> (r: i64)
    requires
        forall|s: int|
            0 <= s < chosen@.len() ==> #[trigger] chosen@[s] < items@.len() && 0 <= items@[
                chosen@[s] as int
            ].0 < 64,
    ensures
        r == spec_bitmask(items@.map_values(|x: Selection| x.0), chosen@),
{
    let ghost values = items@.map_values(|x: Selection| x.0);
    let mut r: i64 = 0;
    let n = chosen.len();
    let mut i: usize = 0;
    while i < n
        invariant
            i <= n == chosen@.len(),
            forall|s: int|
                0 <= s < chosen@.len() ==> #[trigger] chosen@[s] < items@.len() && 0 <= items@[
                    chosen@[s] as int
                ].0 < 64,
            values == items@.map_values(|x: Selection| x.0),
            r == spec_bitmask(values, chosen@.take(i as int)),
        decreases n - i,
    {
        let s = chosen[i];
        proof {
            assert(chosen@.take(i + 1).drop_last() =~= chosen@.take(i as int));
            assert(chosen@.take(i + 1).last() == chosen@[i as int]);
        }
        r = r | (1i64 << items[s].0);
        i = i + 1;
    }
    proof {
        assert(chosen@.take(n as int) =~= chosen@);
    }
    r
}

/// One entry offered in an interactive selection: a numeric value and its
/// label.
#[derive(Debug, Clone)]
pub struct Selection(pub i64, pub String);

impl Selection {
    /// The label, for display.
    pub fn text(&self) -> (r: &str)
        ensures
            r@ == self.1@,
    {
        self.1.as_str()
    }

    /// Build the list offered to the user: one entry per mapping pair, in
    /// order, then a final entry for entering a custom value.
    pub fn map_to_vec(entries: &Vec<(i64, String)>) -> (r: Vec<Selection>)
        ensures
            r@.len() == entries@.len() + 1,
            forall|i: int|
                0 <= i < entries@.len() ==> (#[trigger] r@[i]).0 == entries@[i].0 && r@[i].1@
                    == entries@[i].1@,
            r@[entries@.len() as int].0 == 0,
            r@[entries@.len() as int].1@ == "Enter a Custom value"@,
{
        let mut r: Vec<Selection> = Vec::new();
        let n = entries.len();
        let mut i: usize = 0;
        while i < n
            invariant
                i <= n == entries@.len(),
                r@.len() == i,
                forall|j: int|
                    0 <= j < i ==> (#[trigger] r@[j]).0 == entries@[j].0 && r@[j].1@
                        == entries@[j].1@,
            decreases n - i,
        {
            let pair = &entries[i];
            r.push(Selection(pair.0, pair.1.clone()));
            i = i + 1;
        }
        r.push(Selection(0, String::from_str("Enter a Custom value")));
        r
    }
}

} // verus!
