use vstd::prelude::*;

verus! {

broadcast use
    vstd::std_specs::vec::axiom_vec_index_decreases,
    vstd::std_specs::vec::axiom_vec_decreases_to_view,
    vstd::seq::axiom_seq_index_decreases,
    vstd::seq::axiom_seq_subrange_decreases;

/// Mathematical model of a decoded bencode node.
///
/// A dictionary is modelled as its entries in insertion order; keys are
/// unique because inserting an existing key replaces the old entry.
#[verifier::ext_equal]
pub enum ValueModel {
    Empty,
    Dict(Seq<(Seq<char>, ValueModel)>),
    List(Seq<ValueModel>),
    Str(Seq<char>),
    Bytes(Seq<u8>),
    Int(int),
}

/// A decoded byte string: text when the bytes were valid UTF-8,
/// opaque bytes otherwise.
#[derive(Debug, Clone, PartialEq)]
pub enum Contents {
    String(String),
    Bytes(Vec<u8>),
}

/// A decoded bencode node: dictionary, list, byte string or integer.
/// `Empty` is only a placeholder default, never a decoded result.
#[derive(Debug, PartialEq)]
pub enum Element {
    Empty,
    Dictionary(Vec<(String, Element)>),
    List(Vec<Element>),
    ByteString(Contents),
    Int(i32),
}

/// The error an accessor returns when the node has another shape.
#[derive(Debug, Clone, Copy, PartialEq, Eq)]
pub enum ElementError {
    WasntString,
    WasntList,
    WasntDictionary,
    WasntInt,
}

pub open spec fn contents_model(c: Contents) -> ValueModel {
    match c {
        Contents::String(s) => ValueModel::Str(s@),
        Contents::Bytes(b) => ValueModel::Bytes(b@),
    }
}

pub open spec fn value_model(e: Element) -> ValueModel
    decreases e,
{
    match e {
        Element::Empty => ValueModel::Empty,
        Element::Int(n) => ValueModel::Int(n as int),
        Element::ByteString(c) => contents_model(c),
        Element::List(v) => ValueModel::List(elems_model(v@)),
        Element::Dictionary(v) => ValueModel::Dict(entries_model(v@)),
    }
}

/// The models of a run of list elements, in order.
pub open spec fn elems_model(v: Seq<Element>) -> Seq<ValueModel>
    decreases v,
{
    if v.len() == 0 {
        Seq::empty()
    } else {
        elems_model(v.drop_last()).push(value_model(v.last()))
    }
}

/// The models of a run of dictionary entries, in order.
pub open spec fn entries_model(v: Seq<(String, Element)>) -> Seq<(Seq<char>, ValueModel)>
    decreases v,
{
    if v.len() == 0 {
        Seq::empty()
    } else {
        entries_model(v.drop_last()).push((v.last().0@, value_model(v.last().1)))
    }
}

/// Each position of `elems_model` is the model of the element there.
pub proof fn lemma_elems_model_index(v: Seq<Element>)
    ensures
        elems_model(v).len() == v.len(),
        forall|i: int| 0 <= i < v.len() ==> elems_model(v)[i] == value_model(v[i]),
    decreases v.len(),
{
    if v.len() > 0 {
        lemma_elems_model_index(v.drop_last());
    }
}

/// Each position of `entries_model` is the key text and the model of the
/// entry there.
pub proof fn lemma_entries_model_index(v: Seq<(String, Element)>)
    ensures
        entries_model(v).len() == v.len(),
        forall|i: int|
            0 <= i < v.len() ==> entries_model(v)[i] == (v[i].0@, value_model(v[i].1)),
    decreases v.len(),
{
    if v.len() > 0 {
        lemma_entries_model_index(v.drop_last());
    }
}

impl View for Contents {
    type V = ValueModel;

    open spec fn view(&self) -> ValueModel {
        contents_model(*self)
    }
}

impl View for Element {
    type V = ValueModel;

    open spec fn view(&self) -> ValueModel {
        value_model(*self)
    }
}

impl Default for Element {
    fn default() -> (r: Self)
        ensures
            r == Element::Empty,
    {
        Element::Empty
    }
}

impl Element {
    /// Consumes the node; the entries when it is a dictionary, and
    /// `WasntDictionary` exactly when it is not.
    pub fn get_dictionary(self) -> (r: Result<Vec<(String, Element)>, ElementError>)
        ensures
            match r {
                Ok(v) => self == Element::Dictionary(v),
                Err(e) => e == ElementError::WasntDictionary && !(self is Dictionary),
            },
    {
        match self {
            Element::Dictionary(v) => Ok(v),
            _ => Err(ElementError::WasntDictionary),
        }
    }

    /// Consumes the node; the text when it is a textual byte string, and
    /// `WasntString` exactly when it is not.
    pub fn get_string(self) -> (r: Result<String, ElementError>)
        ensures
            match r {
                Ok(s) => self == Element::ByteString(Contents::String(s)),
                Err(e) => e == ElementError::WasntString && !(self matches Element::ByteString(
                    Contents::String(_),
                )),
            },
    {
        match self {
            Element::ByteString(c) => match c {
                Contents::String(s) => Ok(s),
                Contents::Bytes(b) => Err(ElementError::WasntString),
            },
            _ => Err(ElementError::WasntString),
        }
    }

    /// Consumes the node; the elements when it is a list, and `WasntList`
    /// exactly when it is not.
    pub fn get_list(self) -> (r: Result<Vec<Element>, ElementError>)
        ensures
            match r {
                Ok(v) => self == Element::List(v),
                Err(e) => e == ElementError::WasntList && !(self is List),
            },
    {
        match self {
            Element::List(v) => Ok(v),
            _ => Err(ElementError::WasntList),
        }
    }

    /// Consumes the node; the value when it is an integer, and `WasntInt`
    /// exactly when it is not.
    pub fn get_integer(self) -> (r: Result<i32, ElementError>)
        ensures
            match r {
                Ok(n) => self == Element::Int(n),
                Err(e) => e == ElementError::WasntInt && !(self is Int),
            },
    {
        match self {
            Element::Int(n) => Ok(n),
            _ => Err(ElementError::WasntInt),
        }
    }
}

} // verus!
