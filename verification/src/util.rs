//! What every element decoder relies on: the extraction of attributes by a
//! table of descriptors, and the walk over the children of an element.

use crate::error::TiledError;
use crate::events::{Attribute, XmlEvent};
use crate::properties::{color_of, Color};
use crate::text::{i32_of, parse_i32, parse_u32, same_text, u32_of};
use vstd::prelude::*;

verus! {

/// How the text of an attribute becomes a value.
#[derive(Debug, Clone, Copy, PartialEq, Eq, Structural)]
pub enum Coercion {
    /// The text itself.
    Text,
    /// An unsigned 32-bit decimal number.
    U32,
    /// A signed 32-bit decimal number.
    I32,
    /// A colour.
    Color,
}

/// Whether an attribute has to be there, and what a rejected text means.
#[derive(Debug, Clone, Copy, PartialEq, Eq, Structural)]
pub enum Presence {
    /// Absent or rejected: the extraction fails.
    Required,
    /// Absent or rejected: no value.
    Optional,
    /// Absent: no value. Rejected: the extraction fails.
    Strict,
}

/// One attribute that an element declares: its name, whether it is needed,
/// and how its text is read.
#[derive(Debug, Clone, Copy)]
pub struct Descriptor {
    pub name: &'static str,
    pub presence: Presence,
    pub coercion: Coercion,
}

/// The value of an attribute.
#[derive(Debug, Clone, PartialEq, Eq)]
pub enum Value {
    Text(String),
    U32(u32),
    I32(i32),
    Color(Color),
}

/// A [`Value`] as contracts see it.
pub enum ValueModel {
    Text(Seq<char>),
    U32(u32),
    I32(i32),
    Color(Color),
}

impl View for Value {
    type V = ValueModel;

    open spec fn view(&self) -> ValueModel {
        match self {
            Value::Text(s) => ValueModel::Text(s@),
            Value::U32(n) => ValueModel::U32(*n),
            Value::I32(n) => ValueModel::I32(*n),
            Value::Color(c) => ValueModel::Color(*c),
        }
    }
}

impl ValueModel {
    /// Whether the value is of the kind that the coercion gives.
    pub open spec fn is_of(self, coercion: Coercion) -> bool {
        match self {
            ValueModel::Text(_) => coercion == Coercion::Text,
            ValueModel::U32(_) => coercion == Coercion::U32,
            ValueModel::I32(_) => coercion == Coercion::I32,
            ValueModel::Color(_) => coercion == Coercion::Color,
        }
    }
}

/// An optional value as contracts see it.
pub open spec fn value_view(value: Option<Value>) -> Option<ValueModel> {
    match value {
        Some(v) => Some(v@),
        None => None,
    }
}

/// A list of optional values as contracts see it.
pub open spec fn values_view(values: Seq<Option<Value>>) -> Seq<Option<ValueModel>> {
    Seq::new(values.len(), |i: int| value_view(values[i]))
}

/// The place of the attribute of the given name: of the last one, if the
/// name occurs more than once.
pub open spec fn find_attr(attrs: Seq<Attribute>, name: Seq<char>) -> Option<int>
    decreases attrs.len(),
{
    if attrs.len() == 0 {
        None
    } else if attrs.last().name@ == name {
        Some(attrs.len() - 1)
    } else {
        find_attr(attrs.drop_last(), name)
    }
}

/// What a coercion makes of a text: a value, or nothing if it rejects it.
pub open spec fn coerce(coercion: Coercion, text: Seq<char>) -> Option<ValueModel> {
    match coercion {
        Coercion::Text => Some(ValueModel::Text(text)),
        Coercion::U32 => match u32_of(text) {
            Some(n) => Some(ValueModel::U32(n)),
            None => None,
        },
        Coercion::I32 => match i32_of(text) {
            Some(n) => Some(ValueModel::I32(n)),
            None => None,
        },
        Coercion::Color => match color_of(text) {
            Some(c) => Some(ValueModel::Color(c)),
            None => None,
        },
    }
}

/// The value of one declared attribute among `attrs`, or the failure that
/// its absence or its text causes.
pub open spec fn resolve_attr(
    attrs: Seq<Attribute>,
    descriptor: Descriptor,
    message: &'static str,
) -> Result<Option<ValueModel>, TiledError> {
    let failure = TiledError::MalformedAttributes { attribute: descriptor.name, message };
    match find_attr(attrs, descriptor.name@) {
        None => if descriptor.presence == Presence::Required {
            Err(failure)
        } else {
            Ok(None)
        },
        Some(i) => {
            let value = coerce(descriptor.coercion, attrs[i].value@);
            if value is None && descriptor.presence != Presence::Optional {
                Err(failure)
            } else {
                Ok(value)
            }
        },
    }
}

/// The values of the declared attributes, one for each descriptor and in the
/// table's order, or the failure of the first descriptor that fails.
pub open spec fn attr_values(
    attrs: Seq<Attribute>,
    table: Seq<Descriptor>,
    message: &'static str,
) -> Result<Seq<Option<ValueModel>>, TiledError>
    decreases table.len(),
{
    if table.len() == 0 {
        Ok(Seq::empty())
    } else {
        match attr_values(attrs, table.drop_last(), message) {
            Err(e) => Err(e),
            Ok(values) => match resolve_attr(attrs, table.last(), message) {
                Err(e) => Err(e),
                Ok(value) => Ok(values.push(value)),
            },
        }
    }
}

/// Whether the values have the shape that the table promises: one for each
/// descriptor, of the kind of its coercion, and present where it is required.
pub open spec fn values_fit(values: Seq<Option<ValueModel>>, table: Seq<Descriptor>) -> bool {
    &&& values.len() == table.len()
    &&& forall|i: int|
        0 <= i < table.len() ==> match #[trigger] values[i] {
            Some(v) => v.is_of(table[i].coercion),
            None => table[i].presence != Presence::Required,
        }
}

/// Where [`attr_values`] fails, it fails with
/// [`TiledError::MalformedAttributes`], under the name of an attribute of the
/// table and with the given message.
pub proof fn lemma_attr_values_error(
    attrs: Seq<Attribute>,
    table: Seq<Descriptor>,
    message: &'static str,
)
    ensures
        match attr_values(attrs, table, message) {
            Ok(_) => true,
            Err(e) => exists|i: int|
                0 <= i < table.len() && e == (TiledError::MalformedAttributes {
                    attribute: (#[trigger] table[i]).name,
                    message,
                }),
        },
    decreases table.len(),
{
    if table.len() > 0 {
        lemma_attr_values_error(attrs, table.drop_last(), message);
        match attr_values(attrs, table.drop_last(), message) {
            Err(e) => {
                let i = choose|i: int|
                    0 <= i < table.drop_last().len() && e == (TiledError::MalformedAttributes {
                        attribute: (#[trigger] table.drop_last()[i]).name,
                        message,
                    });
                assert(table[i] == table.drop_last()[i]);
            },
            Ok(_) => {
                assert(table[table.len() - 1] == table.last());
            },
        }
    }
}

/// The values that [`attr_values`] gives fit their table.
pub proof fn lemma_attr_values_fit(
    attrs: Seq<Attribute>,
    table: Seq<Descriptor>,
    message: &'static str,
)
    ensures
        match attr_values(attrs, table, message) {
            Ok(values) => values_fit(values, table),
            Err(_) => true,
        },
    decreases table.len(),
{
    if table.len() > 0 {
        lemma_attr_values_fit(attrs, table.drop_last(), message);
    }
}

/// Looks an attribute up by its name.
pub fn lookup<'a>(attrs: &'a Vec<Attribute>, name: &str) -> (found: Option<&'a Attribute>)
    ensures
        match find_attr(attrs@, name@) {
            Some(i) => found == Some(&attrs@[i]),
            None => found is None,
        },
{
    let mut i: usize = attrs.len();
    assert(attrs@.take(i as int) =~= attrs@);
    while i > 0
        invariant
            i <= attrs.len(),
            find_attr(attrs@, name@) == find_attr(attrs@.take(i as int), name@),
        decreases i,
    {
        assert(attrs@.take(i as int).drop_last() =~= attrs@.take(i - 1));
        if same_text(attrs[i - 1].name.as_str(), name) {
            return Some(&attrs[i - 1]);
        }
        i -= 1;
    }
    None
}

/// Applies a coercion to a text.
pub fn apply(coercion: Coercion, text: &String) -> (value: Option<Value>)
    ensures
        value_view(value) == coerce(coercion, text@),
{
    match coercion {
        Coercion::Text => Some(Value::Text(text.clone())),
        Coercion::U32 => match parse_u32(text.as_str()) {
            Some(n) => Some(Value::U32(n)),
            None => None,
        },
        Coercion::I32 => match parse_i32(text.as_str()) {
            Some(n) => Some(Value::I32(n)),
            None => None,
        },
        Coercion::Color => match Color::parse(text.as_str()) {
            Some(c) => Some(Value::Color(c)),
            None => None,
        },
    }
}

/// Extracts one declared attribute.
pub fn get_attr(attrs: &Vec<Attribute>, descriptor: &Descriptor, message: &'static str) -> (result:
    Result<Option<Value>, TiledError>)
    ensures
        match result {
            Ok(value) => resolve_attr(attrs@, *descriptor, message) == Ok::<
                Option<ValueModel>,
                TiledError,
            >(value_view(value)),
            Err(e) => resolve_attr(attrs@, *descriptor, message) == Err::<
                Option<ValueModel>,
                TiledError,
            >(e),
        },
{
    match lookup(attrs, descriptor.name) {
        None => match descriptor.presence {
            Presence::Required => Err(
                TiledError::MalformedAttributes { attribute: descriptor.name, message },
            ),
            _ => Ok(None),
        },
        Some(attribute) => {
            let value = apply(descriptor.coercion, &attribute.value);
            match descriptor.presence {
                Presence::Optional => Ok(value),
                _ => if value.is_none() {
                    Err(TiledError::MalformedAttributes { attribute: descriptor.name, message })
                } else {
                    Ok(value)
                },
            }
        },
    }
}

/// Extracts the declared attributes of an element in one pass over the
/// table: the result holds one value for each descriptor, in the table's
/// order. The first descriptor that fails decides the error, which names its
/// attribute and carries `message`.
pub fn get_attrs(attrs: &Vec<Attribute>, table: &Vec<Descriptor>, message: &'static str) -> (result:
    Result<Vec<Option<Value>>, TiledError>)
    ensures
        match result {
            Ok(values) => attr_values(attrs@, table@, message) == Ok::<
                Seq<Option<ValueModel>>,
                TiledError,
            >(values_view(values@)) && values_fit(values_view(values@), table@),
            Err(e) => attr_values(attrs@, table@, message) == Err::<
                Seq<Option<ValueModel>>,
                TiledError,
            >(e) && e is MalformedAttributes,
        },
{
    proof {
        lemma_attr_values_error(attrs@, table@, message);
    }
    let mut values: Vec<Option<Value>> = Vec::new();
    let mut i: usize = 0;
    assert(values_view(values@) =~= Seq::empty());
    while i < table.len()
        invariant
            i <= table.len(),
            attr_values(attrs@, table@.take(i as int), message) == Ok::<
                Seq<Option<ValueModel>>,
                TiledError,
            >(values_view(values@)),
        decreases table.len() - i,
    {
        assert(table@.take(i + 1).drop_last() =~= table@.take(i as int));
        let ghost before = values_view(values@);
        match get_attr(attrs, &table[i], message) {
            Err(e) => {
                proof {
                    lemma_attr_values_fail(attrs@, table@, message, i + 1);
                }
                return Err(e);
            },
            Ok(value) => {
                values.push(value);
                assert(values_view(values@) =~= before.push(value_view(value)));
            },
        }
        i += 1;
    }
    assert(table@.take(table@.len() as int) =~= table@);
    proof {
        lemma_attr_values_fit(attrs@, table@, message);
    }
    Ok(values)
}

/// A failure among the first `k` descriptors is the failure of the table.
pub proof fn lemma_attr_values_fail(
    attrs: Seq<Attribute>,
    table: Seq<Descriptor>,
    message: &'static str,
    k: int,
)
    requires
        0 <= k <= table.len(),
        attr_values(attrs, table.take(k), message) is Err,
    ensures
        attr_values(attrs, table, message) == attr_values(attrs, table.take(k), message),
    decreases table.len(),
{
    if k == table.len() {
        assert(table.take(k) =~= table);
    } else {
        assert(table.drop_last().take(k) =~= table.take(k));
        lemma_attr_values_fail(attrs, table.drop_last(), message, k);
    }
}

/// An optional text as contracts see it.
pub open spec fn text_view(text: Option<String>) -> Option<Seq<char>> {
    match text {
        Some(t) => Some(t@),
        None => None,
    }
}

/// The text at place `i`, if a text is there.
pub open spec fn text_at(values: Seq<Option<ValueModel>>, i: int) -> Option<Seq<char>> {
    match values[i] {
        Some(ValueModel::Text(t)) => Some(t),
        _ => None,
    }
}

/// The unsigned number at place `i`, if one is there.
pub open spec fn u32_at(values: Seq<Option<ValueModel>>, i: int) -> Option<u32> {
    match values[i] {
        Some(ValueModel::U32(n)) => Some(n),
        _ => None,
    }
}

/// The signed number at place `i`, if one is there.
pub open spec fn i32_at(values: Seq<Option<ValueModel>>, i: int) -> Option<i32> {
    match values[i] {
        Some(ValueModel::I32(n)) => Some(n),
        _ => None,
    }
}

/// The colour at place `i`, if one is there.
pub open spec fn color_at(values: Seq<Option<ValueModel>>, i: int) -> Option<Color> {
    match values[i] {
        Some(ValueModel::Color(c)) => Some(c),
        _ => None,
    }
}

/// Executable form of [`text_at`].
pub fn take_text(values: &Vec<Option<Value>>, i: usize) -> (text: Option<String>)
    requires
        i < values.len(),
    ensures
        text_view(text) == text_at(values_view(values@), i as int),
{
    match &values[i] {
        Some(Value::Text(t)) => Some(t.clone()),
        _ => None,
    }
}

/// Executable form of [`u32_at`].
pub fn take_u32(values: &Vec<Option<Value>>, i: usize) -> (number: Option<u32>)
    requires
        i < values.len(),
    ensures
        number == u32_at(values_view(values@), i as int),
{
    match &values[i] {
        Some(Value::U32(n)) => Some(*n),
        _ => None,
    }
}

/// Executable form of [`i32_at`].
pub fn take_i32(values: &Vec<Option<Value>>, i: usize) -> (number: Option<i32>)
    requires
        i < values.len(),
    ensures
        number == i32_at(values_view(values@), i as int),
{
    match &values[i] {
        Some(Value::I32(n)) => Some(*n),
        _ => None,
    }
}

/// Executable form of [`color_at`].
pub fn take_color(values: &Vec<Option<Value>>, i: usize) -> (color: Option<Color>)
    requires
        i < values.len(),
    ensures
        color == color_at(values_view(values@), i as int),
{
    match &values[i] {
        Some(Value::Color(c)) => Some(*c),
        _ => None,
    }
}

/// What an element's end was expected for when the events ran out.
pub const ENDED_EARLY: &'static str = "Document ended before we expected.";

/// The place after the closing event that brings the nesting depth down to
/// zero, from place `pos` on, where `depth` elements are open. It fails
/// where the events end or break before that.
pub open spec fn subtree_end(events: Seq<XmlEvent>, pos: int, depth: nat) -> Result<
    usize,
    TiledError,
>
    decreases events.len() - pos,
{
    if depth == 0 {
        Ok(pos as usize)
    } else if pos < 0 || pos >= events.len() {
        Err(TiledError::PrematureEnd(ENDED_EARLY))
    } else {
        match events[pos] {
            XmlEvent::StartElement { .. } => subtree_end(events, pos + 1, depth + 1),
            XmlEvent::EndElement { .. } => subtree_end(events, pos + 1, (depth - 1) as nat),
            XmlEvent::EndDocument => Err(TiledError::PrematureEnd(ENDED_EARLY)),
            XmlEvent::Malformed(why) => Err(TiledError::XmlDecodingError(why)),
            _ => subtree_end(events, pos + 1, depth),
        }
    }
}

/// The place after the whole element that opens at place `open`: after its
/// closing event, with everything nested in it passed over.
pub open spec fn element_end(events: Seq<XmlEvent>, open: int) -> Result<usize, TiledError> {
    subtree_end(events, open + 1, 1)
}

/// [`subtree_end`] arrives after where it started, within the events.
pub proof fn lemma_subtree_end(events: Seq<XmlEvent>, pos: int, depth: nat)
    requires
        0 <= pos <= events.len(),
        events.len() <= usize::MAX,
    ensures
        match subtree_end(events, pos, depth) {
            Ok(p) => pos <= p <= events.len() && (depth > 0 ==> pos < p),
            Err(_) => true,
        },
    decreases events.len() - pos,
{
    if depth > 0 && pos < events.len() {
        match events[pos] {
            XmlEvent::StartElement { .. } => lemma_subtree_end(events, pos + 1, depth + 1),
            XmlEvent::EndElement { .. } => lemma_subtree_end(events, pos + 1, (depth - 1) as nat),
            XmlEvent::EndDocument => {},
            XmlEvent::Malformed(_) => {},
            _ => lemma_subtree_end(events, pos + 1, depth),
        }
    }
}

/// The places of the child elements that open from place `pos` on, where
/// `depth` elements are open and the children are those that open at depth
/// one. The list ends where the element closes, or where the events end or
/// break.
pub open spec fn children_from(events: Seq<XmlEvent>, pos: int, depth: nat) -> Seq<usize>
    decreases events.len() - pos,
{
    if depth == 0 || pos < 0 || pos >= events.len() {
        Seq::empty()
    } else {
        match events[pos] {
            XmlEvent::StartElement { .. } => if depth == 1 {
                seq![pos as usize] + children_from(events, pos + 1, depth + 1)
            } else {
                children_from(events, pos + 1, depth + 1)
            },
            XmlEvent::EndElement { .. } => children_from(events, pos + 1, (depth - 1) as nat),
            XmlEvent::EndDocument => Seq::empty(),
            XmlEvent::Malformed(_) => Seq::empty(),
            _ => children_from(events, pos + 1, depth),
        }
    }
}

/// The places at which the children of the element that opens at place
/// `open` open, in the order of the document. What is nested deeper is no
/// child. Where the events end or break before the element closes, these are
/// the children that opened before that.
pub open spec fn children_at(events: Seq<XmlEvent>, open: int) -> Seq<usize> {
    children_from(events, open + 1, 1)
}

/// Every child opens after the place from which the walk starts, at an
/// opening event.
pub proof fn lemma_children_from(events: Seq<XmlEvent>, pos: int, depth: nat)
    requires
        0 <= pos,
        events.len() <= usize::MAX,
    ensures
        forall|i: int|
            0 <= i < children_from(events, pos, depth).len() ==> {
                let p = #[trigger] children_from(events, pos, depth)[i];
                pos <= p < events.len() && events[p as int] is StartElement
            },
    decreases events.len() - pos,
{
    if depth > 0 && pos < events.len() {
        match events[pos] {
            XmlEvent::StartElement { .. } => lemma_children_from(events, pos + 1, depth + 1),
            XmlEvent::EndElement { .. } => lemma_children_from(events, pos + 1, (depth - 1) as nat),
            XmlEvent::EndDocument => {},
            XmlEvent::Malformed(_) => {},
            _ => lemma_children_from(events, pos + 1, depth),
        }
    }
}

/// What one pass over an element finds: where its children open, and where
/// the element ends.
pub struct Walk {
    /// The places at which the children open, in the order of the document.
    pub children: Vec<usize>,
    /// The place after the element's closing event, or why the element does
    /// not close.
    pub end: Result<usize, TiledError>,
}

/// Walks over the element that opens at place `open`, once and forward: it
/// notes where each child opens, passes over whatever is nested deeper, and
/// stops at the closing event that matches the opening one. Where the
/// events end or break before that, `end` holds the failure and `children`
/// the children that had opened.
pub fn walk(events: &Vec<XmlEvent>, open: usize) -> (found: Walk)
    requires
        open < events.len(),
    ensures
        found.children@ == children_at(events@, open as int),
        found.end == element_end(events@, open as int),
        found.end is Ok ==> open < found.end->Ok_0 <= events.len(),
        forall|i: int|
            0 <= i < found.children@.len() ==> {
                let p = #[trigger] found.children@[i];
                open < p < events.len() && events@[p as int] is StartElement
            },
{
    let mut children: Vec<usize> = Vec::new();
    let mut i: usize = open + 1;
    let mut depth: usize = 1;
    proof {
        lemma_subtree_end(events@, open + 1, 1);
        lemma_children_from(events@, open + 1, 1);
    }
    while depth > 0
        invariant
            open < i <= events.len(),
            depth <= i - open,
            subtree_end(events@, i as int, depth as nat) == element_end(events@, open as int),
            children@ + children_from(events@, i as int, depth as nat) == children_at(
                events@,
                open as int,
            ),
            forall|k: int|
                0 <= k < children_at(events@, open as int).len() ==> {
                    let p = #[trigger] children_at(events@, open as int)[k];
                    open < p < events.len() && events@[p as int] is StartElement
                },
        decreases events.len() - i,
    {
        let ghost seen = children@;
        if i >= events.len() {
            assert(seen + Seq::<usize>::empty() =~= seen);
            return Walk { children, end: Err(TiledError::PrematureEnd(ENDED_EARLY)) };
        }
        match &events[i] {
            XmlEvent::StartElement { .. } => {
                if depth == 1 {
                    children.push(i);
                    assert(children@ + children_from(events@, i + 1, (depth + 1) as nat) =~= seen
                        + children_from(events@, i as int, depth as nat));
                }
                depth += 1;
            },
            XmlEvent::EndElement { .. } => {
                depth -= 1;
            },
            XmlEvent::EndDocument => {
                assert(seen + Seq::<usize>::empty() =~= seen);
                return Walk { children, end: Err(TiledError::PrematureEnd(ENDED_EARLY)) };
            },
            XmlEvent::Malformed(why) => {
                assert(seen + Seq::<usize>::empty() =~= seen);
                return Walk { children, end: Err(TiledError::XmlDecodingError(why.clone())) };
            },
            _ => {},
        }
        i += 1;
    }
    assert(children@ + Seq::<usize>::empty() =~= children@);
    Walk { children, end: Ok(i) }
}

/// A descriptor of an attribute that has to be there.
pub open spec fn required(name: &'static str, coercion: Coercion) -> Descriptor {
    Descriptor { name, presence: Presence::Required, coercion }
}

/// A descriptor of an attribute whose absence, or rejected text, gives no
/// value.
pub open spec fn optional(name: &'static str, coercion: Coercion) -> Descriptor {
    Descriptor { name, presence: Presence::Optional, coercion }
}

/// A descriptor of an attribute that may be absent, but whose text, if
/// there, has to be accepted.
pub open spec fn strict(name: &'static str, coercion: Coercion) -> Descriptor {
    Descriptor { name, presence: Presence::Strict, coercion }
}

impl Descriptor {
    /// Executable form of [`required`].
    pub fn required(name: &'static str, coercion: Coercion) -> (descriptor: Descriptor)
        ensures
            descriptor == required(name, coercion),
    {
        Descriptor { name, presence: Presence::Required, coercion }
    }

    /// Executable form of [`optional`].
    pub fn optional(name: &'static str, coercion: Coercion) -> (descriptor: Descriptor)
        ensures
            descriptor == optional(name, coercion),
    {
        Descriptor { name, presence: Presence::Optional, coercion }
    }

    /// Executable form of [`strict`].
    pub fn strict(name: &'static str, coercion: Coercion) -> (descriptor: Descriptor)
        ensures
            descriptor == strict(name, coercion),
    {
        Descriptor { name, presence: Presence::Strict, coercion }
    }
}

/// The attributes of the element that opens at place `open`; none if no
/// element opens there.
pub open spec fn attributes_at(events: Seq<XmlEvent>, open: int) -> Seq<Attribute> {
    if 0 <= open < events.len() {
        match events[open] {
            XmlEvent::StartElement { attributes, .. } => attributes@,
            _ => Seq::empty(),
        }
    } else {
        Seq::empty()
    }
}

/// The name of the element that opens at place `open`; empty if no element
/// opens there.
pub open spec fn name_at(events: Seq<XmlEvent>, open: int) -> Seq<char> {
    if 0 <= open < events.len() {
        match events[open] {
            XmlEvent::StartElement { name, .. } => name@,
            _ => Seq::empty(),
        }
    } else {
        Seq::empty()
    }
}

/// Extracts the declared attributes of the element that opens at place
/// `open`; see [`get_attrs`].
pub fn attrs_at(
    events: &Vec<XmlEvent>,
    open: usize,
    table: &Vec<Descriptor>,
    message: &'static str,
) -> (result: Result<Vec<Option<Value>>, TiledError>)
    requires
        open < events.len(),
    ensures
        match result {
            Ok(values) => attr_values(attributes_at(events@, open as int), table@, message) == Ok::<
                Seq<Option<ValueModel>>,
                TiledError,
            >(values_view(values@)) && values_fit(values_view(values@), table@),
            Err(e) => attr_values(attributes_at(events@, open as int), table@, message) == Err::<
                Seq<Option<ValueModel>>,
                TiledError,
            >(e) && e is MalformedAttributes,
        },
{
    match &events[open] {
        XmlEvent::StartElement { attributes, .. } => get_attrs(attributes, table, message),
        _ => {
            let none: Vec<Attribute> = Vec::new();
            get_attrs(&none, table, message)
        },
    }
}

/// Whether the element that opens at place `open` has the given name.
pub fn name_is(events: &Vec<XmlEvent>, open: usize, name: &str) -> (yes: bool)
    requires
        open < events.len(),
    ensures
        yes == (name_at(events@, open as int) == name@),
{
    match &events[open] {
        XmlEvent::StartElement { name: found, .. } => same_text(found.as_str(), name),
        _ => {
            proof {
                reveal_strlit("");
            }
            assert(""@ =~= Seq::<char>::empty());
            same_text("", name)
        },
    }
}

/// What a decoder gives, as contracts see it: the model of the value, or
/// the failure.
pub open spec fn parsed<T: View>(result: Result<T, TiledError>) -> Result<T::V, TiledError> {
    match result {
        Ok(value) => Ok(value@),
        Err(e) => Err(e),
    }
}

/// The place at which the first element of the given name opens, at any
/// depth, from place `pos` on. Without one the search fails: with the
/// reader's message where the markup breaks first, else, where the events
/// end, with `message`.
pub open spec fn root_from(
    events: Seq<XmlEvent>,
    pos: int,
    name: Seq<char>,
    message: &'static str,
) -> Result<usize, TiledError>
    decreases events.len() - pos,
{
    if pos < 0 || pos >= events.len() {
        Err(TiledError::PrematureEnd(message))
    } else {
        match events[pos] {
            XmlEvent::StartElement { name: found, .. } => if found@ == name {
                Ok(pos as usize)
            } else {
                root_from(events, pos + 1, name, message)
            },
            XmlEvent::EndDocument => Err(TiledError::PrematureEnd(message)),
            XmlEvent::Malformed(why) => Err(TiledError::XmlDecodingError(why)),
            _ => root_from(events, pos + 1, name, message),
        }
    }
}

/// Finds where the first element of the given name opens.
pub fn find_root(events: &Vec<XmlEvent>, name: &str, message: &'static str) -> (result: Result<
    usize,
    TiledError,
>)
    ensures
        result == root_from(events@, 0, name@, message),
        result is Ok ==> result->Ok_0 < events.len(),
{
    let mut i: usize = 0;
    while i < events.len()
        invariant
            root_from(events@, i as int, name@, message) == root_from(events@, 0, name@, message),
        decreases events.len() - i,
    {
        match &events[i] {
            XmlEvent::StartElement { name: found, .. } => {
                if same_text(found.as_str(), name) {
                    return Ok(i);
                }
            },
            XmlEvent::EndDocument => {
                return Err(TiledError::PrematureEnd(message));
            },
            XmlEvent::Malformed(why) => {
                return Err(TiledError::XmlDecodingError(why.clone()));
            },
            _ => {},
        }
        i += 1;
    }
    Err(TiledError::PrematureEnd(message))
}

/// Whether the element that opens at place `open` has an attribute of the
/// given name.
pub fn has_attr(events: &Vec<XmlEvent>, open: usize, name: &str) -> (yes: bool)
    requires
        open < events.len(),
    ensures
        yes == (find_attr(attributes_at(events@, open as int), name@) is Some),
{
    match &events[open] {
        XmlEvent::StartElement { attributes, .. } => lookup(attributes, name).is_some(),
        _ => false,
    }
}

} // verus!
