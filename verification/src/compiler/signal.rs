//! Signals and the groups they come in.

use crate::compiler::document::{same_text, Declaration, Entry};
use crate::compiler::error::{Failure, SchemaError, SchemaErrorKind};
use crate::compiler::names::{to_camel_case, to_shouty_snake_case};
use crate::compiler::types::{new_type, Type, Types, TypesView};
use vstd::prelude::*;
use vstd::string::StringExecFns;

verus! {

/// The identifier of a signal, as wide as any class needs.
pub type SignalId = u16;

/// How the signals of a group reach the wire.
#[derive(Debug, Clone, Copy, PartialEq, Eq, Structural)]
pub enum SignalClass {
    /// Framed directly, behind one byte of identifier.
    LowLevel,
    /// Carried in a package, behind two bytes of identifier.
    Packed,
}

/// Which way a signal goes.
#[derive(Debug, Clone, Copy, PartialEq, Eq, Structural)]
pub enum SignalDirection {
    ClientToServer,
    ServerToClient,
    Mutual,
}

/// One message of the protocol: its name, what it means, which way it
/// goes, and its fields in their order.
#[derive(Debug)]
pub struct Signal {
    pub name: String,
    pub description: String,
    pub direction: SignalDirection,
    pub fields: Type,
}

/// Signals that share a class and the edges of the machine.
#[derive(Debug)]
pub struct SignalGroup {
    pub class: SignalClass,
    pub signals: Vec<Signal>,
}

/// A [`Signal`] by value.
pub struct SignalView {
    pub name: Seq<char>,
    pub description: Seq<char>,
    pub direction: SignalDirection,
    pub fields: Seq<(Seq<char>, usize)>,
}

/// A [`SignalGroup`] by value.
pub struct GroupView {
    pub class: SignalClass,
    pub signals: Seq<SignalView>,
}

impl SignalView {
    /// Whether the format of each field stands in a row of `length`
    /// formats.
    pub open spec fn fits(self, length: int) -> bool {
        forall|j: int| 0 <= j < self.fields.len() ==> (#[trigger] self.fields[j]).1 < length
    }
}

impl GroupView {
    /// Whether each signal fits a row of `length` formats.
    pub open spec fn fits(self, length: int) -> bool {
        forall|k: int| 0 <= k < self.signals.len() ==> (#[trigger] self.signals[k]).fits(length)
    }
}

impl View for Signal {
    type V = SignalView;

    open spec fn view(&self) -> SignalView {
        SignalView {
            name: self.name@,
            description: self.description@,
            direction: self.direction,
            fields: crate::compiler::registry::fields_view(self.fields@),
        }
    }
}

impl View for SignalGroup {
    type V = GroupView;

    open spec fn view(&self) -> GroupView {
        GroupView {
            class: self.class,
            signals: self.signals@.map_values(|signal: Signal| signal@),
        }
    }
}

/// The sum that identifies a name: for each of its bytes, thirty-one times
/// the byte, and seven.
pub open spec fn name_sum(bytes: Seq<u8>) -> nat
    decreases bytes.len(),
{
    if bytes.len() == 0 {
        0
    } else {
        name_sum(bytes.drop_last()) + bytes.last() as nat * 31 + 7
    }
}

/// The identifier of the signal named `name` in the class `class`: the sum
/// of the name, wrapped around at the width of the class's identifiers.
pub open spec fn identifier_of(name: Seq<char>, class: SignalClass) -> SignalId {
    match class {
        SignalClass::LowLevel => (name_sum(vstd::utf8::encode_utf8(name)) % 0x100) as u16,
        SignalClass::Packed => (name_sum(vstd::utf8::encode_utf8(name)) % 0x1_0000) as u16,
    }
}

/// The direction that `text` names.
pub open spec fn direction_of(text: Seq<char>) -> Option<SignalDirection> {
    if text == "CS"@ {
        Some(SignalDirection::ClientToServer)
    } else if text == "SC"@ {
        Some(SignalDirection::ServerToClient)
    } else if text == "MT"@ {
        Some(SignalDirection::Mutual)
    } else {
        None
    }
}

/// The class that `text` names.
pub open spec fn class_of(text: Seq<char>) -> Option<SignalClass> {
    if text == "ll"@ {
        Some(SignalClass::LowLevel)
    } else if text == "pk"@ {
        Some(SignalClass::Packed)
    } else {
        None
    }
}

/// `types` with `formats` more in its row.
pub open spec fn grown(types: TypesView, formats: Seq<crate::compiler::format::FormatView>) -> TypesView {
    TypesView { formats: types.formats + formats, entries: types.entries }
}

/// The signal that `data` declares under the name `name`, and the formats
/// that its fields add to the registry.
pub open spec fn parse_signal(types: TypesView, name: Seq<char>, data: Declaration) -> Result<
    (SignalView, Seq<crate::compiler::format::FormatView>),
    Failure,
> {
    match data {
        Declaration::Mapping(entries) => match crate::compiler::document::lookup_text(
            entries@,
            "_description"@,
        ) {
            None => Err(
                crate::compiler::error::failure(
                    SchemaErrorKind::MissingDescription,
                    name,
                    "signal"@,
                ),
            ),
            Some(description) => match crate::compiler::document::lookup_text(
                entries@,
                "_direction"@,
            ) {
                None => Err(
                    crate::compiler::error::failure(
                        SchemaErrorKind::MissingDirection,
                        name,
                        "signal"@,
                    ),
                ),
                Some(way) => match direction_of(way) {
                    None => Err(
                        crate::compiler::error::failure(
                            SchemaErrorKind::UnknownDirection,
                            name,
                            "signal"@,
                        ),
                    ),
                    Some(direction) => match crate::compiler::types::resolve_type(
                        types,
                        name,
                        data,
                    ) {
                        Err(failure) => Err(failure),
                        Ok((formats, fields)) => Ok(
                            (SignalView { name, description, direction, fields }, formats),
                        ),
                    },
                },
            },
        },
        _ => Err(crate::compiler::error::failure(SchemaErrorKind::NotAMapping, name, "signal"@)),
    }
}

/// The signals that `entries` declare, one for each entry but the class,
/// and the formats that their fields add to the registry.
pub open spec fn parse_signals(types: TypesView, entries: Seq<Entry>) -> Result<
    (Seq<SignalView>, Seq<crate::compiler::format::FormatView>),
    Failure,
>
    decreases entries.len(),
{
    if entries.len() == 0 {
        Ok((Seq::empty(), Seq::empty()))
    } else {
        match parse_signals(types, entries.drop_last()) {
            Err(failure) => Err(failure),
            Ok((signals, formats)) => if entries.last().key@ == "_class"@ {
                Ok((signals, formats))
            } else {
                match parse_signal(
                    grown(types, formats),
                    entries.last().key@,
                    entries.last().value,
                ) {
                    Err(failure) => Err(failure),
                    Ok((signal, added)) => Ok((signals.push(signal), formats + added)),
                }
            },
        }
    }
}

/// The group that `data` declares under the name `name`, and the formats
/// that its signals add to the registry.
pub open spec fn parse_group(types: TypesView, name: Seq<char>, data: Declaration) -> Result<
    (GroupView, Seq<crate::compiler::format::FormatView>),
    Failure,
> {
    match data {
        Declaration::Mapping(entries) => match crate::compiler::document::lookup_text(
            entries@,
            "_class"@,
        ) {
            None => Err(
                crate::compiler::error::failure(SchemaErrorKind::MissingClass, name, "group"@),
            ),
            Some(text) => match class_of(text) {
                None => Err(
                    crate::compiler::error::failure(
                        SchemaErrorKind::UnexpectedClass,
                        name,
                        "group"@,
                    ),
                ),
                Some(class) => match parse_signals(types, entries@) {
                    Err(failure) => Err(failure),
                    Ok((signals, formats)) => Ok((GroupView { class, signals }, formats)),
                },
            },
        },
        _ => Err(crate::compiler::error::failure(SchemaErrorKind::NotAMapping, name, "group"@)),
    }
}

/// A failure among the first signals is the failure of them all.
pub proof fn lemma_signals_failure(types: TypesView, entries: Seq<Entry>, count: int)
    requires
        0 <= count <= entries.len(),
        parse_signals(types, entries.take(count)) is Err,
    ensures
        parse_signals(types, entries) == parse_signals(types, entries.take(count)),
    decreases entries.len() - count,
{
    if count < entries.len() {
        assert(entries.take(count + 1).drop_last() =~= entries.take(count));
        lemma_signals_failure(types, entries, count + 1);
    } else {
        assert(entries.take(count) =~= entries);
    }
}

impl SignalDirection {
    /// The direction that `text` names.
    pub fn from_name(text: &str) -> (r: Option<SignalDirection>)
        ensures
            r == direction_of(text@),
    {
        if same_text(text, "CS") {
            Some(SignalDirection::ClientToServer)
        } else if same_text(text, "SC") {
            Some(SignalDirection::ServerToClient)
        } else if same_text(text, "MT") {
            Some(SignalDirection::Mutual)
        } else {
            None
        }
    }
}

impl SignalClass {
    /// The class that `text` names.
    pub fn from_name(text: &str) -> (r: Option<SignalClass>)
        ensures
            r == class_of(text@),
    {
        if same_text(text, "ll") {
            Some(SignalClass::LowLevel)
        } else if same_text(text, "pk") {
            Some(SignalClass::Packed)
        } else {
            None
        }
    }
}

impl Signal {
    /// Builds the signal that `data` declares under the name `name`, its
    /// fields resolved against `types`. On a failure nothing is added to
    /// the registry.
    pub fn new(types: &mut Types, name: &str, data: &Declaration) -> (r: Result<
        Signal,
        SchemaError,
    >)
        requires
            old(types).wf(),
        ensures
            final(types).wf(),
            final(types)@.entries == old(types)@.entries,
            match parse_signal(old(types)@, name@, *data) {
                Ok((signal, formats)) => final(types)@ == grown(old(types)@, formats) && (
                r matches Ok(built) && built@ == signal && built@.fits(
                    final(types)@.formats.len() as int,
                )),
                Err(failure) => final(types)@ == old(types)@ && (r matches Err(e)
                    && e.is_failure(failure)),
            },
    {
        let entries = match data.as_hash() {
            Some(entries) => entries,
            None => {
                return Err(SchemaError::new(SchemaErrorKind::NotAMapping, name, "signal"));
            },
        };
        let description = match crate::compiler::document::find_text(entries, "_description") {
            Some(description) => description,
            None => {
                return Err(SchemaError::new(SchemaErrorKind::MissingDescription, name, "signal"));
            },
        };
        let way = match crate::compiler::document::find_text(entries, "_direction") {
            Some(way) => way,
            None => {
                return Err(SchemaError::new(SchemaErrorKind::MissingDirection, name, "signal"));
            },
        };
        let direction = match SignalDirection::from_name(way) {
            Some(direction) => direction,
            None => {
                return Err(SchemaError::new(SchemaErrorKind::UnknownDirection, name, "signal"));
            },
        };
        let fields = new_type(types, name, data)?;
        assert forall|j: int| 0 <= j < fields@.len() implies (
        #[trigger] crate::compiler::registry::fields_view(fields@)[j]).1
            < types@.formats.len() by {
            assert(fields@[j].1 < types@.formats.len());
        }
        Ok(
            Signal {
                name: String::from_str(name),
                description: String::from_str(description),
                direction,
                fields,
            },
        )
    }

    /// The identifier of the signal among packed signals: the sum of its
    /// name, wrapped around at sixteen bits.
    pub fn signal_id(&self) -> (id: SignalId)
        ensures
            id == identifier_of(self.name@, SignalClass::Packed),
    {
        let bytes = self.name.as_str().as_bytes();
        let mut ret: u32 = 0;
        let mut i: usize = 0;
        assert(bytes@.take(0) =~= Seq::<u8>::empty());
        while i < bytes.len()
            invariant
                i <= bytes.len(),
                ret == name_sum(bytes@.take(i as int)) % 0x1_0000,
            decreases bytes.len() - i,
        {
            assert(bytes@.take(i + 1).drop_last() =~= bytes@.take(i as int));
            ret = (ret + bytes[i] as u32 * 31 + 7) % 0x1_0000;
            i += 1;
        }
        assert(bytes@.take(i as int) =~= bytes@);
        ret as u16
    }

    /// The identifier of the signal in the class `class`.
    pub fn identifier(&self, class: SignalClass) -> (id: SignalId)
        ensures
            id == identifier_of(self.name@, class),
    {
        let wide = self.signal_id();
        match class {
            SignalClass::LowLevel => wide % 0x100,
            SignalClass::Packed => wide,
        }
    }

    /// The name of the constant that holds the signal's identifier.
    pub fn signal_id_name(&self) -> (r: String)
        ensures
            r@ == "SIGNAL_"@ + crate::compiler::names::shouty_snake_case(self.name@),
    {
        crate::compiler::names::constant_name(to_shouty_snake_case(self.name.as_str()).as_str())
    }

    /// The name of the structure that holds the signal's fields.
    pub fn signal_type(&self) -> (r: String)
        ensures
            r@ == crate::compiler::names::camel_case(self.name@) + "Signal"@,
    {
        crate::compiler::names::structure_name(to_camel_case(self.name.as_str()).as_str())
    }
}

impl SignalGroup {
    /// Builds the group that `data` declares under the name `name`: its
    /// class, and a signal for every other entry. On a failure nothing is
    /// added to the registry.
    pub fn new(types: &mut Types, name: &str, data: &Declaration) -> (r: Result<
        SignalGroup,
        SchemaError,
    >)
        requires
            old(types).wf(),
        ensures
            final(types).wf(),
            final(types)@.entries == old(types)@.entries,
            match parse_group(old(types)@, name@, *data) {
                Ok((group, formats)) => final(types)@ == grown(old(types)@, formats) && (
                r matches Ok(built) && built@ == group && built@.fits(
                    final(types)@.formats.len() as int,
                )),
                Err(failure) => final(types)@ == old(types)@ && (r matches Err(e)
                    && e.is_failure(failure)),
            },
    {
        let entries = match data.as_hash() {
            Some(entries) => entries,
            None => {
                return Err(SchemaError::new(SchemaErrorKind::NotAMapping, name, "group"));
            },
        };
        let text = match crate::compiler::document::find_text(entries, "_class") {
            Some(text) => text,
            None => {
                return Err(SchemaError::new(SchemaErrorKind::MissingClass, name, "group"));
            },
        };
        let class = match SignalClass::from_name(text) {
            Some(class) => class,
            None => {
                return Err(SchemaError::new(SchemaErrorKind::UnexpectedClass, name, "group"));
            },
        };
        let ghost start = types@;
        let length = types.formats.len();
        let mut signals: Vec<Signal> = Vec::new();
        let mut i: usize = 0;
        assert(entries@.take(0) =~= Seq::<Entry>::empty());
        assert(signals@.map_values(|signal: Signal| signal@) =~= Seq::<SignalView>::empty());
        assert(types@.formats.skip(length as int) =~= Seq::empty());
        assert(types@.formats.take(length as int) =~= start.formats);
        while i < entries.len()
            invariant
                i <= entries.len(),
                types.wf(),
                old(types).wf(),
                start == old(types)@,
                *data == Declaration::Mapping(*entries),
                crate::compiler::document::lookup_text(entries@, "_class"@) == Some(text@),
                class_of(text@) == Some(class),
                types@.entries == start.entries,
                length == start.formats.len(),
                length <= types@.formats.len(),
                types@.formats.take(length as int) == start.formats,
                forall|k: int|
                    0 <= k < signals@.len() ==> (#[trigger] signals@[k])@.fits(
                        types@.formats.len() as int,
                    ),
                parse_signals(start, entries@.take(i as int)) == Ok::<
                    (Seq<SignalView>, Seq<crate::compiler::format::FormatView>),
                    Failure,
                >(
                    (
                        signals@.map_values(|signal: Signal| signal@),
                        types@.formats.skip(length as int),
                    ),
                ),
            decreases entries.len() - i,
        {
            assert(entries@.take(i + 1).drop_last() =~= entries@.take(i as int));
            assert(entries@.take(i + 1).last() == entries@[i as int]);
            let entry = &entries[i];
            let ghost before = types@;
            let ghost done = before.formats.skip(length as int);
            assert(before.formats =~= start.formats + done);
            assert(before == grown(start, done));
            if !same_text(entry.key.as_str(), "_class") {
                match Signal::new(types, entry.key.as_str(), &entry.value) {
                    Ok(signal) => {
                        proof {
                            let added = parse_signal(before, entry.key@, entry.value)->Ok_0.1;
                            assert(types@.formats =~= start.formats + (done + added));
                            assert(types@.formats.skip(length as int) =~= done + added);
                            assert(types@.formats.take(length as int) =~= start.formats);
                            assert(signals@.push(signal).map_values(|signal: Signal| signal@)
                                =~= signals@.map_values(|signal: Signal| signal@).push(signal@));
                        }
                        signals.push(signal);
                    },
                    Err(e) => {
                        proof {
                            lemma_signals_failure(start, entries@, i + 1);
                        }
                        types.cut(length);
                        assert(types@.formats =~= start.formats);
                        return Err(e);
                    },
                }
            }
            i += 1;
        }
        assert(entries@.take(i as int) =~= entries@);
        assert(types@.formats =~= start.formats + types@.formats.skip(length as int));
        let group = SignalGroup { class, signals };
        assert forall|k: int| 0 <= k < group@.signals.len() implies (
        #[trigger] group@.signals[k]).fits(types@.formats.len() as int) by {
            assert(group@.signals[k] == signals@[k]@);
        }
        Ok(group)
    }
}

} // verus!
