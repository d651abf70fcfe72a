use vstd::prelude::*;
use vstd::string::StringExecFns;
use crate::text::{signed_decimal, signed_decimal_string};

verus! {

/// The mathematical value of a [`DataValue`].
pub enum SpecDataValue {
    Null,
    Bool(bool),
    Int(i64),
    Str(Seq<char>),
    List(Seq<SpecDataValue>),
}

/// A constant that a rule may mention or a row may hold.
#[derive(Debug)]
pub enum DataValue {
    Null,
    Bool(bool),
    Int(i64),
    Str(String),
    List(Vec<DataValue>),
}

/// What a [`DataValue`] stands for.
pub open spec fn value_view(v: DataValue) -> SpecDataValue
    decreases v,
{
    match v {
        DataValue::Null => SpecDataValue::Null,
        DataValue::Bool(b) => SpecDataValue::Bool(b),
        DataValue::Int(i) => SpecDataValue::Int(i),
        DataValue::Str(s) => SpecDataValue::Str(s@),
        DataValue::List(items) => SpecDataValue::List(
            Seq::new(
                items.len() as nat,
                |i: int|
                    if 0 <= i < items.len() {
                        value_view(items[i])
                    } else {
                        SpecDataValue::Null
                    },
            ),
        ),
    }
}

impl View for DataValue {
    type V = SpecDataValue;

    open spec fn view(&self) -> SpecDataValue {
        value_view(*self)
    }
}

impl DeepView for DataValue {
    type V = SpecDataValue;

    open spec fn deep_view(&self) -> SpecDataValue {
        value_view(*self)
    }
}

/// A list value stands for the list of what its items stand for.
pub proof fn lemma_list_view(items: Vec<DataValue>)
    ensures
        DataValue::List(items)@ == SpecDataValue::List(items.deep_view()),
{
    assert(DataValue::List(items)@->List_0 =~= items.deep_view());
}

impl SpecDataValue {
    /// How the value is written in text: `null`, `true` or `false`, a decimal
    /// number, a string between double quotes, or the items of a list between
    /// square brackets, separated by a comma and a blank.
    pub open spec fn text(self) -> Seq<char>
        decreases self,
    {
        match self {
            SpecDataValue::Null => seq!['n', 'u', 'l', 'l'],
            SpecDataValue::Bool(b) => if b {
                seq!['t', 'r', 'u', 'e']
            } else {
                seq!['f', 'a', 'l', 's', 'e']
            },
            SpecDataValue::Int(i) => signed_decimal(i as int),
            SpecDataValue::Str(s) => seq!['"'] + s + seq!['"'],
            SpecDataValue::List(items) => seq!['['] + Self::text_of_all(items) + seq![']'],
        }
    }

    /// The texts of the values, separated by a comma and a blank.
    pub open spec fn text_of_all(items: Seq<SpecDataValue>) -> Seq<char>
        decreases items,
    {
        if items.len() == 0 {
            Seq::empty()
        } else if items.len() == 1 {
            items.last().text()
        } else {
            Self::text_of_all(items.drop_last()) + seq![',', ' '] + items.last().text()
        }
    }
}

impl Clone for DataValue {
    fn clone(&self) -> (r: DataValue)
        ensures
            r@ == self@,
        decreases *self,
    {
        match self {
            DataValue::Null => DataValue::Null,
            DataValue::Bool(b) => DataValue::Bool(*b),
            DataValue::Int(i) => DataValue::Int(*i),
            DataValue::Str(s) => DataValue::Str(s.clone()),
            DataValue::List(items) => {
                let mut out: Vec<DataValue> = Vec::new();
                let mut i: usize = 0;
                while i < items.len()
                    invariant
                        i <= items.len(),
                        out.len() == i,
                        *self matches DataValue::List(l) && l == *items,
                        forall|j: int| 0 <= j < i ==> out[j]@ == items[j]@,
                    decreases items.len() - i,
                {
                    out.push(items[i].clone());
                    i += 1;
                }
                proof {
                    assert(out.deep_view() =~= items.deep_view());
                    lemma_list_view(out);
                    lemma_list_view(*items);
                }
                DataValue::List(out)
            },
        }
    }
}

impl DataValue {
    /// A string value.
    pub fn from_str(s: &str) -> (v: DataValue)
        ensures
            v@ == SpecDataValue::Str(s@),
    {
        DataValue::Str(String::from_str(s))
    }

    /// How the value is written in text.
    pub fn to_string(&self) -> (s: String)
        ensures
            s@ == self@.text(),
        decreases *self,
    {
        match self {
            DataValue::Null => {
                proof {
                    reveal_strlit("null");
                }
                let s = String::from_str("null");
                assert(s@ =~= self@.text());
                s
            },
            DataValue::Bool(b) => {
                proof {
                    reveal_strlit("true");
                    reveal_strlit("false");
                }
                let s = if *b {
                    String::from_str("true")
                } else {
                    String::from_str("false")
                };
                assert(s@ =~= self@.text());
                s
            },
            DataValue::Int(i) => signed_decimal_string(*i),
            DataValue::Str(t) => {
                proof {
                    reveal_strlit("\"");
                }
                let mut s = String::from_str("\"");
                s.append(t.as_str());
                s.append("\"");
                assert(s@ =~= self@.text());
                s
            },
            DataValue::List(items) => {
                proof {
                    reveal_strlit("[");
                    reveal_strlit("]");
                    reveal_strlit(", ");
                    lemma_list_view(*items);
                }
                let mut s = String::from_str("[");
                let ghost all = items.deep_view();
                let mut i: usize = 0;
                assert(s@ =~= seq!['['] + SpecDataValue::text_of_all(all.take(0)));
                while i < items.len()
                    invariant
                        i <= items.len(),
                        all == items.deep_view(),
                        *self matches DataValue::List(l) && l == *items,
                        s@ == seq!['['] + SpecDataValue::text_of_all(all.take(i as int)),
                    decreases items.len() - i,
                {
                    proof {
                        reveal_strlit(", ");
                        assert(all.take(i + 1).drop_last() =~= all.take(i as int));
                        assert(all.take(i + 1).last() == items[i as int]@);
                    }
                    if i > 0 {
                        s.append(", ");
                    }
                    let t = items[i].to_string();
                    s.append(t.as_str());
                    assert(s@ =~= seq!['['] + SpecDataValue::text_of_all(all.take(i + 1)));
                    i += 1;
                }
                assert(all.take(items.len() as int) =~= all);
                s.append("]");
                assert(s@ =~= self@.text());
                s
            },
        }
    }
}

} // verus!
