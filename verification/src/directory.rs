//! Borrowed views of a directory field and of the names inside it.
//!
//! Both types hold nothing but the text they were made from. Every accessor
//! computes its part anew from that text and hands out a sub-slice of it; the
//! contracts state each part over the text's characters.

use crate::text::{
    is_char, lemma_first_index_is, part_after, part_before, slice_after, slice_before,
};
use vstd::prelude::*;
use vstd::std_specs::convert::FromSpecImpl;
use vstd::string::*;

verus! {

/// The source name of the directory field `raw`: what stands before its
/// first `:`, where it has one.
pub open spec fn source_of(raw: Seq<char>) -> Option<Seq<char>> {
    part_before(raw, ':')
}

/// The target name of the directory field `raw`: what stands after its first
/// `:`, or all of it where it has none.
pub open spec fn target_of(raw: Seq<char>) -> Seq<char> {
    part_after(raw, ':')
}

/// The short form of the name `raw`: what stands before its first `|`, where
/// it has one.
pub open spec fn short_of(raw: Seq<char>) -> Option<Seq<char>> {
    part_before(raw, '|')
}

/// The long form of the name `raw`: what stands after its first `|`, or all
/// of it where it has none.
pub open spec fn long_of(raw: Seq<char>) -> Seq<char> {
    part_after(raw, '|')
}

/// The name of the place where an entry's parent is: a single dot.
pub open spec fn parent_name() -> Seq<char> {
    seq!['.']
}

/// Whether the name `raw` says that the directory lies where its parent
/// does: its long form is the dot, or else it has a short form and that is
/// the dot.
pub open spec fn located_at_parent(raw: Seq<char>) -> bool {
    ||| long_of(raw) == parent_name()
    ||| (long_of(raw) != parent_name() && short_of(raw) == Some(parent_name()))
}

/// How the name `raw` reads: both forms where it has a short one, else the
/// long form alone.
pub open spec fn name_display(raw: Seq<char>) -> Seq<char> {
    match short_of(raw) {
        Some(short) => "short = "@ + short + ", long = "@ + long_of(raw),
        None => long_of(raw),
    }
}

/// How the directory field `raw` reads: both names in brackets where it has
/// a source, else the target alone.
pub open spec fn directory_display(raw: Seq<char>) -> Seq<char> {
    match source_of(raw) {
        Some(source) => "source = ["@ + name_display(source) + "], target = ["@ + name_display(
            target_of(raw),
        ) + "]"@,
        None => name_display(target_of(raw)),
    }
}

/// A field without `:` has no source, and all of it is the target.
pub proof fn lemma_field_without_colon(s: Seq<char>)
    requires
        !s.contains(':'),
    ensures
        source_of(s) is None,
        target_of(s) == s,
{
}

/// A field whose first `:` stands at `i` has what stands before `i` as its
/// source and what stands after `i` as its target, further `:` included.
pub proof fn lemma_field_with_colon(s: Seq<char>, i: int)
    requires
        0 <= i < s.len(),
        s[i] == ':',
        forall|j: int| 0 <= j < i ==> s[j] != ':',
    ensures
        source_of(s) == Some(s.subrange(0, i)),
        target_of(s) == s.subrange(i + 1, s.len() as int),
{
    lemma_first_index_is(s, ':', i);
}

/// A name without `|` has no short form, and all of it is the long form.
pub proof fn lemma_name_without_bar(s: Seq<char>)
    requires
        !s.contains('|'),
    ensures
        short_of(s) is None,
        long_of(s) == s,
{
}

/// A name whose first `|` stands at `j` has what stands before `j` as its
/// short form and what stands after `j` as its long form, further `|`
/// included.
pub proof fn lemma_name_with_bar(s: Seq<char>, j: int)
    requires
        0 <= j < s.len(),
        s[j] == '|',
        forall|k: int| 0 <= k < j ==> s[k] != '|',
    ensures
        short_of(s) == Some(s.subrange(0, j)),
        long_of(s) == s.subrange(j + 1, s.len() as int),
{
    lemma_first_index_is(s, '|', j);
}

/// Looking at the long form first changes no answer: a name lies at its
/// parent exactly where one of its two forms is the dot.
pub proof fn lemma_located_at_parent_either_form(s: Seq<char>)
    ensures
        located_at_parent(s) <==> long_of(s) == parent_name() || short_of(s) == Some(
            parent_name(),
        ),
{
}

/// A directory name, consisting of a target name and (optionally) a
/// different source name.
pub struct MsiDirectoryName<'a> {
    combined: &'a str,
}

/// A name which consists of a long name and (optionally) a different short
/// name.
pub struct MsiName<'a> {
    combined: &'a str,
}

impl<'a> View for MsiDirectoryName<'a> {
    type V = Seq<char>;

    /// The text the value was made from.
    closed spec fn view(&self) -> Seq<char> {
        self.combined@
    }
}

impl<'a> View for MsiName<'a> {
    type V = Seq<char>;

    /// The text the value was made from.
    closed spec fn view(&self) -> Seq<char> {
        self.combined@
    }
}

impl<'a> FromSpecImpl<&'a str> for MsiName<'a> {
    open spec fn obeys_from_spec() -> bool {
        true
    }

    closed spec fn from_spec(combined: &'a str) -> Self {
        MsiName { combined }
    }
}

impl<'a> From<&'a str> for MsiName<'a> {
    /// Takes any text as a name; nothing is rejected.
    fn from(combined: &'a str) -> (name: Self)
        ensures
            name@ == combined@,
    {
        MsiName { combined }
    }
}

impl<'a> FromSpecImpl<&'a str> for MsiDirectoryName<'a> {
    open spec fn obeys_from_spec() -> bool {
        true
    }

    closed spec fn from_spec(combined: &'a str) -> Self {
        MsiDirectoryName { combined }
    }
}

impl<'a> From<&'a str> for MsiDirectoryName<'a> {
    /// Takes any text as a directory field; nothing is rejected.
    fn from(combined: &'a str) -> (name: Self)
        ensures
            name@ == combined@,
    {
        MsiDirectoryName { combined }
    }
}

impl<'a> MsiDirectoryName<'a> {
    /// Returns the source name, where the field has one.
    pub fn source(&self) -> (r: Option<MsiName<'_>>)
        ensures
            r matches Some(source) ==> source_of(self@) == Some(source@),
            r is None ==> source_of(self@) is None,
    {
        match slice_before(self.combined, ':') {
            Some(source) => Some(MsiName::from(source)),
            None => None,
        }
    }

    /// Returns the target name.
    pub fn target(&self) -> (r: MsiName<'_>)
        ensures
            r@ == target_of(self@),
    {
        MsiName::from(slice_after(self.combined, ':'))
    }

    /// Returns the combined string the field was made from.
    pub fn combined(&self) -> (r: &str)
        ensures
            r@ == self@,
    {
        self.combined
    }

    /// Renders the field for a reader: `source = [..], target = [..]` where
    /// it has a source, else the target alone, each name as
    /// [`MsiName::display`] renders it.
    pub fn display(&self) -> (r: String)
        ensures
            r@ == directory_display(self@),
    {
        let target = self.target().display();
        match self.source() {
            Some(source) => {
                let mut out = "source = [".to_owned();
                out.append(source.display().as_str());
                out.append("], target = [");
                out.append(target.as_str());
                out.append("]");
                out
            },
            None => target,
        }
    }

    /// Renders the field as it was given.
    pub fn debug(&self) -> (r: String)
        ensures
            r@ == self@,
    {
        self.combined.to_owned()
    }
}

impl<'a> MsiName<'a> {
    /// Returns the long name of the path.
    pub fn long(&self) -> (r: &str)
        ensures
            r@ == long_of(self@),
    {
        slice_after(self.combined, '|')
    }

    /// Returns an optional short name of the path.
    pub fn short(&self) -> (r: Option<&str>)
        ensures
            r matches Some(short) ==> short_of(self@) == Some(short@),
            r is None ==> short_of(self@) is None,
    {
        slice_before(self.combined, '|')
    }

    /// Returns a combined string representing the path.
    pub fn combined(&self) -> (r: &str)
        ensures
            r@ == self@,
    {
        self.combined
    }

    /// Returns a boolean value indicating whether the directory is located
    /// at parent's location.
    pub fn is_located_at_parent(&self) -> (r: bool)
        ensures
            r == located_at_parent(self@),
    {
        if is_char(self.long(), '.') {
            true
        } else if let Some(short) = self.short() {
            is_char(short, '.')
        } else {
            false
        }
    }

    /// Renders the name for a reader: `short = .., long = ..` where it has a
    /// short form, else the long form alone.
    pub fn display(&self) -> (r: String)
        ensures
            r@ == name_display(self@),
    {
        let long = self.long();
        match self.short() {
            Some(short) => {
                let mut out = "short = ".to_owned();
                out.append(short);
                out.append(", long = ");
                out.append(long);
                out
            },
            None => long.to_owned(),
        }
    }

    /// Renders the name as it was given.
    pub fn debug(&self) -> (r: String)
        ensures
            r@ == self@,
    {
        self.combined.to_owned()
    }
}

} // verus!
