//! Identifiers and the metadata record that every bead carries.

use vstd::prelude::*;
use crate::error::{follows, BeadError, ErrorKind};
use crate::table::{has_key, put, value_of, without, Table};
use crate::text::{catenate, chars_of, contains, contains_char, has_sub, same_text};
use crate::timestamp::{parse_timestamp, parsed, Instant};
use vstd::utf8::encode_utf8;

verus! {

/// The version tag written into every metadata record.
pub const META_VERSION: &'static str = "aaa947a6-1f7a-11e6-ba3a-0021cc73492e";

/// The rule for the name of a bead: not empty, not `.` or `..`, no `/`, and no
/// two underscores in a row.
pub open spec fn valid_name(name: Seq<char>) -> bool {
    &&& name.len() > 0
    &&& name != "."@
    &&& name != ".."@
    &&& !name.contains('/')
    &&& !has_sub(name, "__"@)
}

/// The rule for the name of an input slot: the rule for bead names, and no `\`
/// either. With both separators ruled out, no `..` segment can occur.
pub open spec fn valid_input_name(name: Seq<char>) -> bool {
    valid_name(name) && !name.contains('\\')
}

/// The text inside an optional string.
pub open spec fn text_of(s: Option<String>) -> Option<Seq<char>> {
    match s {
        Some(t) => Some(t@),
        None => None,
    }
}

/// The name of a bead: the name shared by all frozen snapshots of one artifact.
#[derive(Debug, PartialEq, Eq, Hash)]
pub struct BeadName(String);

impl View for BeadName {
    type V = Seq<char>;

    closed spec fn view(&self) -> Seq<char> {
        self.0@
    }
}

impl BeadName {
    #[verifier::type_invariant]
    spec fn well_formed(&self) -> bool {
        valid_name(self.0@)
    }

    /// Accepts exactly the names that `valid_name` admits; a refused name comes
    /// back as the message of the error.
    pub fn new(name: &str) -> (r: Result<BeadName, BeadError>)
        ensures
            follows(r, if valid_name(name@) { Ok(name@) } else { Err(ErrorKind::InvalidBeadName) }),
            r is Err ==> r->Err_0@.message == name@,
    {
        if Self::is_valid(name) {
            Ok(BeadName(name.to_owned()))
        } else {
            Err(BeadError::InvalidBeadName(name.to_owned()))
        }
    }

    /// Whether `name` may name a bead.
    pub fn is_valid(name: &str) -> (b: bool)
        ensures
            b == valid_name(name@),
    {
        let chars = chars_of(name);
        !name.is_empty() && !same_text(name, ".") && !same_text(name, "..") && !contains_char(&chars, '/')
            && !contains(&chars, &chars_of("__"))
    }

    /// The name as text.
    pub fn as_str(&self) -> (s: &str)
        ensures
            s@ == self@,
            valid_name(self@),
    {
        proof {
            use_type_invariant(self);
        }
        self.0.as_str()
    }

    /// The name as text of its own.
    pub fn to_string(&self) -> (s: String)
        ensures
            s@ == self@,
    {
        self.0.clone()
    }
}

impl Clone for BeadName {
    fn clone(&self) -> (c: Self)
        ensures
            c == *self,
    {
        proof {
            use_type_invariant(self);
        }
        BeadName(self.0.clone())
    }
}

/// The name of an input slot of a workspace.
#[derive(Debug, PartialEq, Eq, Hash)]
pub struct InputName(String);

impl View for InputName {
    type V = Seq<char>;

    closed spec fn view(&self) -> Seq<char> {
        self.0@
    }
}

impl InputName {
    #[verifier::type_invariant]
    spec fn well_formed(&self) -> bool {
        valid_input_name(self.0@)
    }

    /// Accepts exactly the names that `valid_input_name` admits.
    pub fn new(name: &str) -> (r: Result<InputName, BeadError>)
        ensures
            follows(r, if valid_input_name(name@) { Ok(name@) } else { Err(ErrorKind::InvalidInput) }),
            r is Err ==> r->Err_0@.message == "Invalid input name: "@ + name@,
    {
        if Self::is_valid(name) {
            Ok(InputName(name.to_owned()))
        } else {
            Err(BeadError::InvalidInput(catenate("Invalid input name: ", name)))
        }
    }

    /// Whether `name` may name an input slot.
    pub fn is_valid(name: &str) -> (b: bool)
        ensures
            b == valid_input_name(name@),
    {
        BeadName::is_valid(name) && !contains_char(&chars_of(name), '\\')
    }

    /// The name as text.
    pub fn as_str(&self) -> (s: &str)
        ensures
            s@ == self@,
            valid_input_name(self@),
    {
        proof {
            use_type_invariant(self);
        }
        self.0.as_str()
    }
}

impl Clone for InputName {
    fn clone(&self) -> (c: Self)
        ensures
            c == *self,
    {
        proof {
            use_type_invariant(self);
        }
        InputName(self.0.clone())
    }
}

/// The digest that identifies the content of a bead. The library compares
/// digests and matches their prefixes; it never looks inside.
#[derive(Debug, PartialEq, Eq, Hash)]
pub struct ContentId(String);

impl View for ContentId {
    type V = Seq<char>;

    closed spec fn view(&self) -> Seq<char> {
        self.0@
    }
}

impl ContentId {
    /// The content id with the text `id`.
    pub fn new(id: &str) -> (c: ContentId)
        ensures
            c@ == id@,
    {
        ContentId(id.to_owned())
    }

    /// The id as text.
    pub fn as_str(&self) -> (s: &str)
        ensures
            s@ == self@,
    {
        self.0.as_str()
    }

    /// The id as text of its own.
    pub fn to_string(&self) -> (s: String)
        ensures
            s@ == self@,
    {
        self.0.clone()
    }
}

impl Clone for ContentId {
    fn clone(&self) -> (c: Self)
        ensures
            c == *self,
    {
        ContentId(self.0.clone())
    }
}

/// A pinned reference to one upstream bead.
#[derive(Debug, PartialEq, Eq)]
pub struct InputSpec {
    pub kind: String,
    pub content_id: String,
    pub freeze_time: String,
}

/// An input specification as plain values.
pub struct InputSpecView {
    pub kind: Seq<char>,
    pub content_id: Seq<char>,
    pub freeze_time: Seq<char>,
}

impl View for InputSpec {
    type V = InputSpecView;

    open spec fn view(&self) -> InputSpecView {
        InputSpecView { kind: self.kind@, content_id: self.content_id@, freeze_time: self.freeze_time@ }
    }
}

impl InputSpec {
    /// The specification with the three values given.
    pub fn new(kind: String, content_id: String, freeze_time: String) -> (s: InputSpec)
        ensures
            s@ == (InputSpecView { kind: kind@, content_id: content_id@, freeze_time: freeze_time@ }),
    {
        InputSpec { kind, content_id, freeze_time }
    }

    /// The instant at which the upstream bead was frozen; it fails with
    /// `InvalidInput` where the freeze time cannot be parsed.
    pub fn freeze_time_datetime(&self) -> (r: Result<Instant, BeadError>)
        ensures
            r is Ok <==> parsed(encode_utf8(self@.freeze_time)) is Some,
            r is Ok ==> Some(r->Ok_0) == parsed(encode_utf8(self@.freeze_time)),
            r is Err ==> r->Err_0@.kind == ErrorKind::InvalidInput,
    {
        parse_timestamp(self.freeze_time.as_str())
    }
}

impl Clone for InputSpec {
    fn clone(&self) -> (c: Self)
        ensures
            c == *self,
    {
        InputSpec {
            kind: self.kind.clone(),
            content_id: self.content_id.clone(),
            freeze_time: self.freeze_time.clone(),
        }
    }
}

/// The metadata record of a bead. `freeze_time` and `freeze_name` are absent
/// for a live workspace and present for a frozen archive.
#[derive(Debug)]
pub struct BeadMeta {
    pub meta_version: String,
    pub kind: String,
    pub inputs: Table<InputSpec>,
    pub freeze_time: Option<String>,
    pub freeze_name: Option<String>,
}

/// A metadata record as plain values; `inputs` in the order of declaration.
pub struct MetaView {
    pub meta_version: Seq<char>,
    pub kind: Seq<char>,
    pub inputs: Seq<(Seq<char>, InputSpecView)>,
    pub freeze_time: Option<Seq<char>>,
    pub freeze_name: Option<Seq<char>>,
}

impl View for BeadMeta {
    type V = MetaView;

    open spec fn view(&self) -> MetaView {
        MetaView {
            meta_version: self.meta_version@,
            kind: self.kind@,
            inputs: self.inputs@,
            freeze_time: text_of(self.freeze_time),
            freeze_name: text_of(self.freeze_name),
        }
    }
}

/// A copy of an optional text.
pub fn clone_text(s: &Option<String>) -> (c: Option<String>)
    ensures
        c == *s,
{
    match s {
        Some(t) => Some(t.clone()),
        None => None,
    }
}

impl BeadMeta {
    /// The record of a fresh workspace of the given kind: no inputs, not frozen.
    pub fn new_workspace(kind: String) -> (m: BeadMeta)
        ensures
            m@ == (MetaView {
                meta_version: META_VERSION@,
                kind: kind@,
                inputs: Seq::empty(),
                freeze_time: None,
                freeze_name: None,
            }),
    {
        BeadMeta {
            meta_version: META_VERSION.to_owned(),
            kind,
            inputs: Table::new(),
            freeze_time: None,
            freeze_name: None,
        }
    }

    /// The record of a bead of the given kind, frozen under `name` at `freeze_time`.
    pub fn new_frozen(kind: String, name: BeadName, freeze_time: String) -> (m: BeadMeta)
        ensures
            m@ == (MetaView {
                meta_version: META_VERSION@,
                kind: kind@,
                inputs: Seq::empty(),
                freeze_time: Some(freeze_time@),
                freeze_name: Some(name@),
            }),
    {
        BeadMeta {
            meta_version: META_VERSION.to_owned(),
            kind,
            inputs: Table::new(),
            freeze_time: Some(freeze_time),
            freeze_name: Some(name.to_string()),
        }
    }

    /// Declares the input `name` with `spec`; a declaration already there under
    /// that name is replaced.
    pub fn add_input(&mut self, name: String, spec: InputSpec)
        ensures
            final(self)@ == (MetaView { inputs: put(old(self)@.inputs, name@, spec@), ..old(self)@ }),
    {
        self.inputs.insert(name, spec);
    }

    /// Withdraws the input `name` and hands back its specification.
    pub fn remove_input(&mut self, name: &str) -> (r: Option<InputSpec>)
        ensures
            final(self)@ == (MetaView { inputs: without(old(self)@.inputs, name@), ..old(self)@ }),
            r is Some == has_key(old(self)@.inputs, name@),
            r is Some ==> r->Some_0@ == value_of(old(self)@.inputs, name@),
    {
        self.inputs.remove(name)
    }

    /// Whether the input `name` is declared.
    pub fn has_input(&self, name: &str) -> (b: bool)
        ensures
            b == has_key(self@.inputs, name@),
    {
        self.inputs.contains_key(name)
    }
}

impl Clone for BeadMeta {
    fn clone(&self) -> (c: Self)
        ensures
            c@ == self@,
    {
        let inputs = self.inputs.clone();
        proof {
            assert forall|i: int| 0 <= i < self.inputs@.len() implies inputs@[i] == self.inputs@[i] by {
                self.inputs.lemma_value(i);
                inputs.lemma_value(i);
            }
            assert(inputs@ =~= self.inputs@);
        }
        BeadMeta {
            meta_version: self.meta_version.clone(),
            kind: self.kind.clone(),
            inputs,
            freeze_time: clone_text(&self.freeze_time),
            freeze_name: clone_text(&self.freeze_name),
        }
    }
}

} // verus!
