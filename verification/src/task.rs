use vstd::prelude::*;

use crate::datetime::{
    now_utc,
    spec_parse_timestamp, spec_render_timestamp, parse_timestamp, render_timestamp, DateTime,
};
use crate::json;
use crate::strings::{chars_to_string, str_eq, str_to_chars};

verus! {

/// Status field of a task record. The wire representation is the lowercase
/// name of the variant.
#[derive(Clone, Copy, Debug, PartialEq, Eq, Structural)]
pub enum Status {
    /// A pending task has not yet been completed or deleted.
    Pending,
    /// A deleted task has been removed from the pending state.
    Deleted,
    /// A completed task has left the pending state by completion.
    Completed,
    /// A waiting task is a pending task hidden from typical view.
    Waiting,
    /// A recurring task is a parent template from which child tasks are cloned.
    Recurring,
}

impl Status {
    /// The lowercase token that denotes this status on the wire.
    pub open spec fn spec_wire_text(self) -> Seq<char> {
        match self {
            Status::Pending => "pending"@,
            Status::Deleted => "deleted"@,
            Status::Completed => "completed"@,
            Status::Waiting => "waiting"@,
            Status::Recurring => "recurring"@,
        }
    }

    /// The status denoted by a wire token, if any: the five lowercase tokens
    /// are recognized, everything else is rejected.
    pub open spec fn spec_of_text(t: Seq<char>) -> Option<Status> {
        if t == "pending"@ {
            Some(Status::Pending)
        } else if t == "deleted"@ {
            Some(Status::Deleted)
        } else if t == "completed"@ {
            Some(Status::Completed)
        } else if t == "waiting"@ {
            Some(Status::Waiting)
        } else if t == "recurring"@ {
            Some(Status::Recurring)
        } else {
            None
        }
    }

    /// Render this status as its wire token.
    pub fn wire_text(&self) -> (r: &'static str)
        ensures
            r@ == self.spec_wire_text(),
    {
        match self {
            Status::Pending => "pending",
            Status::Deleted => "deleted",
            Status::Completed => "completed",
            Status::Waiting => "waiting",
            Status::Recurring => "recurring",
        }
    }

    /// Parse a wire token into a status, per [`Status::spec_of_text`].
    pub fn of_text(t: &str) -> (r: Option<Status>)
        ensures
            r == Status::spec_of_text(t@),
    {
        if str_eq(t, "pending") {
            Some(Status::Pending)
        } else if str_eq(t, "deleted") {
            Some(Status::Deleted)
        } else if str_eq(t, "completed") {
            Some(Status::Completed)
        } else if str_eq(t, "waiting") {
            Some(Status::Waiting)
        } else if str_eq(t, "recurring") {
            Some(Status::Recurring)
        } else {
            None
        }
    }
}

/// Whether `c` is a hexadecimal digit (either case).
pub open spec fn is_hex_char(c: char) -> bool {
    (48 <= c as int <= 57) || (97 <= c as int <= 102) || (65 <= c as int <= 70)
}

/// `c` with an ASCII uppercase letter mapped to lowercase.
pub open spec fn lower_char(c: char) -> char {
    if 65 <= c as int <= 90 {
        ((c as int) + 32) as char
    } else {
        c
    }
}

pub open spec fn lower_chars(s: Seq<char>) -> Seq<char> {
    s.map_values(|c: char| lower_char(c))
}

/// Whether `s` has the canonical textual shape of a 128-bit identifier:
/// 36 characters, hyphens at positions 8, 13, 18 and 23, hexadecimal digits
/// (either case) everywhere else.
pub open spec fn uuid_shape(s: Seq<char>) -> bool {
    &&& s.len() == 36
    &&& forall|i: int|
        0 <= i < 36 ==> if i == 8 || i == 13 || i == 18 || i == 23 {
            s[i] == '-'
        } else {
            is_hex_char(#[trigger] s[i])
        }
}

/// The canonical lowercase hyphenated identifier form: shape-valid and
/// already lowercase.
pub open spec fn canonical_uuid(s: Seq<char>) -> bool {
    uuid_shape(s) && lower_chars(s) == s
}

/// Lowercase `c`, preserving everything that is not an ASCII uppercase
/// letter.
fn lowercase_char(c: char) -> (r: char)
    ensures
        r == lower_char(c),
{
    let u = c as u32;
    if 65 <= u && u <= 90 {
        (((c as u8) + 32)) as char
    } else {
        c
    }
}

/// Validate the canonical identifier shape and normalize hexadecimal digits
/// to lowercase: `Some` exactly on shape-valid input, and then the lowercase
/// form.
pub fn normalize_uuid(s: &str) -> (r: Option<String>)
    ensures
        match r {
            Some(t) => uuid_shape(s@) && t@ == lower_chars(s@) && canonical_uuid(t@),
            None => !uuid_shape(s@),
        },
{
    let chars = str_to_chars(s);
    if chars.len() != 36 {
        return None;
    }
    let mut out: Vec<char> = Vec::new();
    let mut i: usize = 0;
    while i < 36
        invariant
            i <= 36,
            chars@ == s@,
            s@.len() == 36,
            out@.len() == i,
            forall|j: int|
                0 <= j < i ==> if j == 8 || j == 13 || j == 18 || j == 23 {
                    s@[j] == '-'
                } else {
                    is_hex_char(#[trigger] s@[j])
                },
            forall|j: int| 0 <= j < i ==> out@[j] == lower_char(#[trigger] s@[j]),
        decreases 36 - i,
    {
        let c = chars[i];
        if i == 8 || i == 13 || i == 18 || i == 23 {
            if c != '-' {
                return None;
            }
            out.push(c);
        } else {
            let u = c as u32;
            let hex = (48 <= u && u <= 57) || (97 <= u && u <= 102) || (65 <= u && u <= 70);
            if !hex {
                return None;
            }
            out.push(lowercase_char(c));
        }
        i = i + 1;
    }
    assert(uuid_shape(s@));
    assert(out@ =~= lower_chars(s@));
    assert(uuid_shape(out@)) by {
        assert(forall|j: int| 0 <= j < 36 ==> out@[j] == lower_char(#[trigger] s@[j]));
    };
    assert(lower_chars(out@) =~= out@) by {
        assert(forall|j: int|
            0 <= j < 36 ==> lower_chars(out@)[j] == lower_char(lower_char(#[trigger] s@[j])));
    };
    Some(chars_to_string(&out))
}

/// An annotation on a task: a timestamp and a free-text description.
#[derive(Clone, Debug)]
pub struct Annotation {
    pub entry: DateTime,
    pub description: String,
}

/// The mathematical content of an [`Annotation`].
pub struct AnnotationView {
    pub entry: DateTime,
    pub description: Seq<char>,
}

impl View for Annotation {
    type V = AnnotationView;

    open spec fn view(&self) -> AnnotationView {
        AnnotationView { entry: self.entry, description: self.description@ }
    }
}

impl PartialEq for Annotation {
    fn eq(&self, other: &Annotation) -> (r: bool) {
        self.entry == other.entry && self.description == other.description
    }
}

impl vstd::std_specs::cmp::PartialEqSpecImpl for Annotation {
    open spec fn obeys_eq_spec() -> bool {
        true
    }

    open spec fn eq_spec(&self, other: &Annotation) -> bool {
        self@ == other@
    }
}

/// A task record: the named fields of the wire format, plus every
/// unrecognized wire field held verbatim (key and compact JSON text) in
/// `unknown_fields`.
#[derive(Clone, Debug)]
pub struct Task {
    /// The state of the task.
    pub status: Status,
    /// The task identifier; canonical lowercase hyphenated form on the wire.
    pub uuid: String,
    /// UTC creation instant.
    pub entry: DateTime,
    /// Task description; mandatory for all tasks.
    pub description: String,
    /// Optional project name, treated as an opaque string.
    pub project: Option<String>,
    /// Tag tokens; a set held in first-occurrence order, kept free of
    /// duplicates.
    pub tags: Vec<String>,
    /// Annotations, in insertion order.
    pub annotations: Vec<Annotation>,
    /// UTC instant of the last modification.
    pub modified: DateTime,
    /// Unrecognized wire fields: key and value (as compact JSON text), in
    /// the order they were decoded.
    pub unknown_fields: Vec<(String, String)>,
}

/// The mathematical content of a [`Task`].
pub struct TaskView {
    pub status: Status,
    pub uuid: Seq<char>,
    pub entry: DateTime,
    pub description: Seq<char>,
    pub project: Option<Seq<char>>,
    pub tags: Seq<Seq<char>>,
    pub annotations: Seq<AnnotationView>,
    pub modified: DateTime,
    pub unknown_fields: Seq<(Seq<char>, Seq<char>)>,
}

/// The views of a vector of strings.
pub open spec fn strs(v: Seq<String>) -> Seq<Seq<char>> {
    v.map_values(|s: String| s@)
}

/// The views of a vector of string pairs.
pub open spec fn str_pairs(v: Seq<(String, String)>) -> Seq<(Seq<char>, Seq<char>)> {
    v.map_values(|p: (String, String)| (p.0@, p.1@))
}

/// The views of a vector of annotations.
pub open spec fn ann_views(v: Seq<Annotation>) -> Seq<AnnotationView> {
    v.map_values(|a: Annotation| a@)
}

impl View for Task {
    type V = TaskView;

    open spec fn view(&self) -> TaskView {
        TaskView {
            status: self.status,
            uuid: self.uuid@,
            entry: self.entry,
            description: self.description@,
            project: match self.project {
                Some(p) => Some(p@),
                None => None,
            },
            tags: strs(self.tags@),
            annotations: ann_views(self.annotations@),
            modified: self.modified,
            unknown_fields: str_pairs(self.unknown_fields@),
        }
    }
}

impl TaskView {
    /// Well-formedness of the in-memory record: every timestamp it holds is
    /// a well-formed instant. (The identifier and tag fields are free text;
    /// decoding guarantees more, see [`Task::decode`].)
    pub open spec fn wf(self) -> bool {
        &&& self.entry.wf()
        &&& self.modified.wf()
        &&& forall|i: int| 0 <= i < self.annotations.len() ==> (#[trigger] self.annotations[i]).entry.wf()
    }
}

/// Pairwise distinctness of a sequence of strings.
pub open spec fn distinct_seqs(s: Seq<Seq<char>>) -> bool {
    forall|i: int, j: int| 0 <= i < j < s.len() ==> s[i] != s[j]
}

} // verus!

verus! {

/// Why a wire payload was rejected.
#[derive(Clone, Copy, Debug, PartialEq, Eq, Structural)]
pub enum DecodeError {
    /// The payload is not one JSON object, or a named field has the wrong
    /// JSON shape (for example a non-string status, or a malformed
    /// annotation entry), or a named field appears twice.
    Malformed,
    /// The status field is a string but not one of the five recognized
    /// tokens.
    BadStatus,
    /// The identifier field is a string but not in canonical textual form.
    BadUuid,
    /// A timestamp field is a string but not in the fixed
    /// `YYYYMMDDTHHMMSSZ` format, or denotes no well-formed instant.
    BadTimestamp,
    /// A mandatory field (status, uuid, entry, description, modified) is
    /// absent.
    MissingField,
}

/// One wire annotation before timestamp parsing: the raw entry text and the
/// description.
#[derive(Clone, Debug)]
pub struct RawAnnotation {
    pub entry_text: String,
    pub description: String,
}

/// One wire value, after JSON reading but before task assembly. The JSON
/// reader classifies each top-level member by its key: string-valued named
/// fields become `Text`, the tag array becomes `List`, the annotation array
/// becomes `Anns`, a null project becomes `Null`, and every unrecognized
/// member becomes `Opaque` holding the value's compact JSON text.
#[derive(Clone, Debug)]
pub enum RawVal {
    Null,
    Text(String),
    List(Vec<String>),
    Anns(Vec<RawAnnotation>),
    Opaque(String),
}

/// The mathematical content of a [`RawVal`].
pub enum GVal {
    Null,
    Text(Seq<char>),
    List(Seq<Seq<char>>),
    Anns(Seq<(Seq<char>, Seq<char>)>),
    Opaque(Seq<char>),
}

/// The views of a vector of raw annotations.
pub open spec fn raw_ann_views(v: Seq<RawAnnotation>) -> Seq<(Seq<char>, Seq<char>)> {
    v.map_values(|a: RawAnnotation| (a.entry_text@, a.description@))
}

impl View for RawVal {
    type V = GVal;

    open spec fn view(&self) -> GVal {
        match self {
            RawVal::Null => GVal::Null,
            RawVal::Text(s) => GVal::Text(s@),
            RawVal::List(v) => GVal::List(strs(v@)),
            RawVal::Anns(v) => GVal::Anns(raw_ann_views(v@)),
            RawVal::Opaque(s) => GVal::Opaque(s@),
        }
    }
}

/// The views of a decoded field list.
pub open spec fn raw_field_views(v: Seq<(String, RawVal)>) -> Seq<(Seq<char>, GVal)> {
    v.map_values(|p: (String, RawVal)| (p.0@, p.1@))
}

/// Tag list with duplicates dropped, keeping the first occurrence of each
/// tag and the order of first occurrences.
pub open spec fn dedup_tags(s: Seq<Seq<char>>) -> Seq<Seq<char>>
    decreases s.len(),
{
    if s.len() == 0 {
        Seq::empty()
    } else {
        let pre = dedup_tags(s.drop_last());
        if pre.contains(s.last()) {
            pre
        } else {
            pre.push(s.last())
        }
    }
}

/// Whether `v` holds a string whose characters are `s`.
fn contains_string(v: &Vec<String>, s: &str) -> (r: bool)
    ensures
        r == strs(v@).contains(s@),
{
    let n = v.len();
    let mut i: usize = 0;
    while i < n
        invariant
            i <= n,
            n == v@.len(),
            forall|j: int| 0 <= j < i ==> strs(v@)[j] != s@,
        decreases n - i,
    {
        if str_eq(v[i].as_str(), s) {
            assert(strs(v@)[i as int] == s@);
            return true;
        }
        assert(strs(v@)[i as int] != s@);
        i = i + 1;
    }
    assert(forall|j: int| 0 <= j < strs(v@).len() ==> strs(v@)[j] != s@);
    false
}

/// Drop duplicate tags, keeping first occurrences in order, per
/// [`dedup_tags`].
fn dedup_strings(v: &Vec<String>) -> (r: Vec<String>)
    ensures
        strs(r@) == dedup_tags(strs(v@)),
{
    let n = v.len();
    let mut out: Vec<String> = Vec::new();
    let mut i: usize = 0;
    while i < n
        invariant
            i <= n,
            n == v@.len(),
            strs(out@) == dedup_tags(strs(v@).take(i as int)),
        decreases n - i,
    {
        let ghost pre = strs(v@).take(i as int);
        assert(strs(v@).take(i + 1).drop_last() =~= pre);
        assert(strs(v@).take(i + 1).last() == v@[i as int]@);
        if !contains_string(&out, v[i].as_str()) {
            out.push(v[i].clone());
            assert(strs(out@) =~= dedup_tags(strs(v@).take(i as int)).push(v@[i as int]@));
        }
        i = i + 1;
    }
    assert(strs(v@).take(n as int) =~= strs(v@));
    out
}

/// Parse the annotation list: each entry text must be a timestamp in the
/// fixed format; descriptions pass through. The first bad timestamp, in
/// input order, rejects the list.
pub open spec fn spec_parse_anns(l: Seq<(Seq<char>, Seq<char>)>) -> Result<
    Seq<AnnotationView>,
    DecodeError,
>
    decreases l.len(),
{
    if l.len() == 0 {
        Ok(Seq::empty())
    } else {
        match spec_parse_anns(l.drop_last()) {
            Ok(pre) => match spec_parse_timestamp(l.last().0) {
                Some(dt) => Ok(pre.push(AnnotationView { entry: dt, description: l.last().1 })),
                None => Err(DecodeError::BadTimestamp),
            },
            Err(e) => Err(e),
        }
    }
}

proof fn lemma_parse_anns_err_persists(l: Seq<(Seq<char>, Seq<char>)>, i: int, e: DecodeError)
    requires
        0 <= i <= l.len(),
        spec_parse_anns(l.take(i)) == Err::<Seq<AnnotationView>, DecodeError>(e),
    ensures
        spec_parse_anns(l) == Err::<Seq<AnnotationView>, DecodeError>(e),
    decreases l.len() - i,
{
    if i < l.len() {
        assert(l.take(i + 1).drop_last() =~= l.take(i));
        lemma_parse_anns_err_persists(l, i + 1, e);
    } else {
        assert(l.take(i) =~= l);
    }
}

/// Parse raw annotations into annotations, mirroring [`spec_parse_anns`].
fn parse_raw_anns(l: &Vec<RawAnnotation>) -> (r: Result<Vec<Annotation>, DecodeError>)
    ensures
        match r {
            Ok(anns) => spec_parse_anns(raw_ann_views(l@)) == Ok::<_, DecodeError>(
                ann_views(anns@),
            ),
            Err(e) => spec_parse_anns(raw_ann_views(l@)) == Err::<Seq<AnnotationView>, _>(e),
        },
{
    let ghost lv = raw_ann_views(l@);
    let n = l.len();
    let mut out: Vec<Annotation> = Vec::new();
    let mut i: usize = 0;
    assert(lv.take(0) =~= Seq::<(Seq<char>, Seq<char>)>::empty());
    assert(ann_views(out@) =~= Seq::<AnnotationView>::empty());
    while i < n
        invariant
            i <= n,
            n == l@.len(),
            lv == raw_ann_views(l@),
            spec_parse_anns(lv.take(i as int)) == Ok::<_, DecodeError>(ann_views(out@)),
        decreases n - i,
    {
        assert(lv.take(i + 1).drop_last() =~= lv.take(i as int));
        assert(lv.take(i + 1).last() == lv[i as int]);
        let chars = str_to_chars(l[i].entry_text.as_str());
        match parse_timestamp(&chars) {
            Some(dt) => {
                let ghost prev = out@;
                out.push(Annotation { entry: dt, description: l[i].description.clone() });
                assert(ann_views(out@) =~= ann_views(prev).push(
                    AnnotationView { entry: dt, description: lv[i as int].1 },
                ));
            },
            None => {
                assert(spec_parse_anns(lv.take(i + 1)) == Err::<Seq<AnnotationView>, _>(
                    DecodeError::BadTimestamp,
                ));
                proof {
                    lemma_parse_anns_err_persists(lv, i + 1, DecodeError::BadTimestamp);
                }
                return Err(DecodeError::BadTimestamp);
            },
        }
        i = i + 1;
    }
    assert(lv.take(n as int) =~= lv);
    Ok(out)
}

} // verus!

verus! {

/// The accumulator of the field-by-field decode: each named field once seen,
/// and the unrecognized fields in order.
pub struct DecAcc {
    pub status: Option<Status>,
    pub uuid: Option<Seq<char>>,
    pub entry: Option<DateTime>,
    pub description: Option<Seq<char>>,
    pub project: Option<Option<Seq<char>>>,
    pub tags: Option<Seq<Seq<char>>>,
    pub annotations: Option<Seq<AnnotationView>>,
    pub modified: Option<DateTime>,
    pub unknown: Seq<(Seq<char>, Seq<char>)>,
}

pub open spec fn empty_acc() -> DecAcc {
    DecAcc {
        status: None,
        uuid: None,
        entry: None,
        description: None,
        project: None,
        tags: None,
        annotations: None,
        modified: None,
        unknown: Seq::empty(),
    }
}

/// Decode one wire field into the accumulator. A named field seen twice or
/// with the wrong shape is `Malformed`; a recognized but invalid value gets
/// its specific error; an unrecognized field is appended verbatim.
pub open spec fn spec_step(k: Seq<char>, v: GVal, acc: DecAcc) -> Result<DecAcc, DecodeError> {
    if k == "status"@ {
        match (v, acc.status) {
            (GVal::Text(t), None) => match Status::spec_of_text(t) {
                Some(st) => Ok(DecAcc { status: Some(st), ..acc }),
                None => Err(DecodeError::BadStatus),
            },
            _ => Err(DecodeError::Malformed),
        }
    } else if k == "uuid"@ {
        match (v, acc.uuid) {
            (GVal::Text(t), None) => if uuid_shape(t) {
                Ok(DecAcc { uuid: Some(lower_chars(t)), ..acc })
            } else {
                Err(DecodeError::BadUuid)
            },
            _ => Err(DecodeError::Malformed),
        }
    } else if k == "entry"@ {
        match (v, acc.entry) {
            (GVal::Text(t), None) => match spec_parse_timestamp(t) {
                Some(dt) => Ok(DecAcc { entry: Some(dt), ..acc }),
                None => Err(DecodeError::BadTimestamp),
            },
            _ => Err(DecodeError::Malformed),
        }
    } else if k == "description"@ {
        match (v, acc.description) {
            (GVal::Text(t), None) => Ok(DecAcc { description: Some(t), ..acc }),
            _ => Err(DecodeError::Malformed),
        }
    } else if k == "project"@ {
        match (v, acc.project) {
            (GVal::Text(t), None) => Ok(DecAcc { project: Some(Some(t)), ..acc }),
            (GVal::Null, None) => Ok(DecAcc { project: Some(None), ..acc }),
            _ => Err(DecodeError::Malformed),
        }
    } else if k == "tags"@ {
        match (v, acc.tags) {
            (GVal::List(l), None) => Ok(DecAcc { tags: Some(dedup_tags(l)), ..acc }),
            _ => Err(DecodeError::Malformed),
        }
    } else if k == "annotations"@ {
        match (v, acc.annotations) {
            (GVal::Anns(l), None) => match spec_parse_anns(l) {
                Ok(anns) => Ok(DecAcc { annotations: Some(anns), ..acc }),
                Err(e) => Err(e),
            },
            _ => Err(DecodeError::Malformed),
        }
    } else if k == "modified"@ {
        match (v, acc.modified) {
            (GVal::Text(t), None) => match spec_parse_timestamp(t) {
                Some(dt) => Ok(DecAcc { modified: Some(dt), ..acc }),
                None => Err(DecodeError::BadTimestamp),
            },
            _ => Err(DecodeError::Malformed),
        }
    } else {
        match v {
            GVal::Opaque(raw) => Ok(DecAcc { unknown: acc.unknown.push((k, raw)), ..acc }),
            _ => Err(DecodeError::Malformed),
        }
    }
}

/// Decode a field list left to right, starting from the empty accumulator.
/// The earliest failing field decides the error.
pub open spec fn spec_fold(fields: Seq<(Seq<char>, GVal)>) -> Result<DecAcc, DecodeError>
    decreases fields.len(),
{
    if fields.len() == 0 {
        Ok(empty_acc())
    } else {
        match spec_fold(fields.drop_last()) {
            Ok(acc) => spec_step(fields.last().0, fields.last().1, acc),
            Err(e) => Err(e),
        }
    }
}

/// Finish the decode: the five mandatory fields must have been seen; an
/// absent project is none, absent tags and annotations are empty.
pub open spec fn spec_finish(acc: DecAcc) -> Result<TaskView, DecodeError> {
    match (acc.status, acc.uuid, acc.entry, acc.description, acc.modified) {
        (Some(status), Some(uuid), Some(entry), Some(description), Some(modified)) => Ok(
            TaskView {
                status,
                uuid,
                entry,
                description,
                project: match acc.project {
                    Some(p) => p,
                    None => None,
                },
                tags: match acc.tags {
                    Some(t) => t,
                    None => Seq::empty(),
                },
                annotations: match acc.annotations {
                    Some(a) => a,
                    None => Seq::empty(),
                },
                modified,
                unknown_fields: acc.unknown,
            },
        ),
        _ => Err(DecodeError::MissingField),
    }
}

/// The decode of a whole field list: what [`Task::decode`] computes once the
/// JSON reader has classified the wire object's members.
pub open spec fn spec_task_from_raw(fields: Seq<(Seq<char>, GVal)>) -> Result<
    TaskView,
    DecodeError,
> {
    match spec_fold(fields) {
        Ok(acc) => spec_finish(acc),
        Err(e) => Err(e),
    }
}

proof fn lemma_fold_err_persists(fields: Seq<(Seq<char>, GVal)>, i: int, e: DecodeError)
    requires
        0 <= i <= fields.len(),
        spec_fold(fields.take(i)) == Err::<DecAcc, DecodeError>(e),
    ensures
        spec_fold(fields) == Err::<DecAcc, DecodeError>(e),
    decreases fields.len() - i,
{
    if i < fields.len() {
        assert(fields.take(i + 1).drop_last() =~= fields.take(i));
        lemma_fold_err_persists(fields, i + 1, e);
    } else {
        assert(fields.take(i) =~= fields);
    }
}

/// The exec accumulator mirroring [`DecAcc`].
struct Acc {
    status: Option<Status>,
    uuid: Option<String>,
    entry: Option<DateTime>,
    description: Option<String>,
    project: Option<Option<String>>,
    tags: Option<Vec<String>>,
    annotations: Option<Vec<Annotation>>,
    modified: Option<DateTime>,
    unknown: Vec<(String, String)>,
}

spec fn acc_view(a: &Acc) -> DecAcc {
    DecAcc {
        status: a.status,
        uuid: match a.uuid {
            Some(ref u) => Some(u@),
            None => None,
        },
        entry: a.entry,
        description: match a.description {
            Some(ref d) => Some(d@),
            None => None,
        },
        project: match a.project {
            Some(Some(ref p)) => Some(Some(p@)),
            Some(None) => Some(None),
            None => None,
        },
        tags: match a.tags {
            Some(ref t) => Some(strs(t@)),
            None => None,
        },
        annotations: match a.annotations {
            Some(ref a2) => Some(ann_views(a2@)),
            None => None,
        },
        modified: a.modified,
        unknown: str_pairs(a.unknown@),
    }
}

/// Decode one field into the accumulator, mirroring [`spec_step`].
fn step_field(k: &String, v: &RawVal, acc: Acc) -> (r: Result<Acc, DecodeError>)
    ensures
        match r {
            Ok(a2) => spec_step(k@, v@, acc_view(&acc)) == Ok::<DecAcc, DecodeError>(acc_view(&a2)),
            Err(e) => spec_step(k@, v@, acc_view(&acc)) == Err::<DecAcc, DecodeError>(e),
        },
{
    if str_eq(k.as_str(), "status") {
        match (v, &acc.status) {
            (RawVal::Text(t), None) => match Status::of_text(t.as_str()) {
                Some(st) => Ok(Acc { status: Some(st), ..acc }),
                None => Err(DecodeError::BadStatus),
            },
            _ => Err(DecodeError::Malformed),
        }
    } else if str_eq(k.as_str(), "uuid") {
        match (v, &acc.uuid) {
            (RawVal::Text(t), None) => match normalize_uuid(t.as_str()) {
                Some(u) => Ok(Acc { uuid: Some(u), ..acc }),
                None => Err(DecodeError::BadUuid),
            },
            _ => Err(DecodeError::Malformed),
        }
    } else if str_eq(k.as_str(), "entry") {
        match (v, &acc.entry) {
            (RawVal::Text(t), None) => {
                let chars = str_to_chars(t.as_str());
                match parse_timestamp(&chars) {
                    Some(dt) => Ok(Acc { entry: Some(dt), ..acc }),
                    None => Err(DecodeError::BadTimestamp),
                }
            },
            _ => Err(DecodeError::Malformed),
        }
    } else if str_eq(k.as_str(), "description") {
        match (v, &acc.description) {
            (RawVal::Text(t), None) => Ok(Acc { description: Some(t.clone()), ..acc }),
            _ => Err(DecodeError::Malformed),
        }
    } else if str_eq(k.as_str(), "project") {
        match (v, &acc.project) {
            (RawVal::Text(t), None) => Ok(Acc { project: Some(Some(t.clone())), ..acc }),
            (RawVal::Null, None) => Ok(Acc { project: Some(None), ..acc }),
            _ => Err(DecodeError::Malformed),
        }
    } else if str_eq(k.as_str(), "tags") {
        match (v, &acc.tags) {
            (RawVal::List(l), None) => Ok(Acc { tags: Some(dedup_strings(l)), ..acc }),
            _ => Err(DecodeError::Malformed),
        }
    } else if str_eq(k.as_str(), "annotations") {
        match (v, &acc.annotations) {
            (RawVal::Anns(l), None) => match parse_raw_anns(l) {
                Ok(anns) => Ok(Acc { annotations: Some(anns), ..acc }),
                Err(e) => Err(e),
            },
            _ => Err(DecodeError::Malformed),
        }
    } else if str_eq(k.as_str(), "modified") {
        match (v, &acc.modified) {
            (RawVal::Text(t), None) => {
                let chars = str_to_chars(t.as_str());
                match parse_timestamp(&chars) {
                    Some(dt) => Ok(Acc { modified: Some(dt), ..acc }),
                    None => Err(DecodeError::BadTimestamp),
                }
            },
            _ => Err(DecodeError::Malformed),
        }
    } else {
        match v {
            RawVal::Opaque(raw) => {
                let mut acc = acc;
                let ghost prev = acc.unknown@;
                acc.unknown.push((k.clone(), raw.clone()));
                assert(str_pairs(acc.unknown@) =~= str_pairs(prev).push((k@, raw@)));
                Ok(acc)
            },
            _ => Err(DecodeError::Malformed),
        }
    }
}

/// Assemble a task from a decoded field list, mirroring
/// [`spec_task_from_raw`] exactly: the result, `Ok` or `Err`, is the one the
/// specification gives for the views of `fields`.
pub fn task_from_raw(fields: &Vec<(String, RawVal)>) -> (r: Result<Task, DecodeError>)
    ensures
        match r {
            Ok(t) => spec_task_from_raw(raw_field_views(fields@)) == Ok::<TaskView, DecodeError>(
                t@,
            ),
            Err(e) => spec_task_from_raw(raw_field_views(fields@)) == Err::<TaskView, DecodeError>(
                e,
            ),
        },
{
    let ghost fv = raw_field_views(fields@);
    let n = fields.len();
    let mut acc = Acc {
        status: None,
        uuid: None,
        entry: None,
        description: None,
        project: None,
        tags: None,
        annotations: None,
        modified: None,
        unknown: Vec::new(),
    };
    assert(fv.take(0) =~= Seq::<(Seq<char>, GVal)>::empty());
    assert(acc_view(&acc) == empty_acc()) by {
        assert(str_pairs(acc.unknown@) =~= Seq::<(Seq<char>, Seq<char>)>::empty());
    };
    let mut i: usize = 0;
    while i < n
        invariant
            i <= n,
            n == fields@.len(),
            fv == raw_field_views(fields@),
            spec_fold(fv.take(i as int)) == Ok::<DecAcc, DecodeError>(acc_view(&acc)),
        decreases n - i,
    {
        assert(fv.take(i + 1).drop_last() =~= fv.take(i as int));
        assert(fv.take(i + 1).last() == fv[i as int]);
        let pair = &fields[i];
        match step_field(&pair.0, &pair.1, acc) {
            Ok(a2) => {
                acc = a2;
            },
            Err(e) => {
                assert(spec_fold(fv.take(i + 1)) == Err::<DecAcc, DecodeError>(e));
                proof {
                    lemma_fold_err_persists(fv, i + 1, e);
                }
                return Err(e);
            },
        }
        i = i + 1;
    }
    assert(fv.take(n as int) =~= fv);
    match (acc.status, acc.uuid, acc.entry, acc.description, acc.modified) {
        (Some(status), Some(uuid), Some(entry), Some(description), Some(modified)) => {
            let task = Task {
                status,
                uuid,
                entry,
                description,
                project: match acc.project {
                    Some(p) => p,
                    None => None,
                },
                tags: match acc.tags {
                    Some(t) => t,
                    None => Vec::new(),
                },
                annotations: match acc.annotations {
                    Some(a) => a,
                    None => Vec::new(),
                },
                modified,
                unknown_fields: acc.unknown,
            };
            assert(strs(Seq::<String>::empty()) =~= Seq::<Seq<char>>::empty());
            assert(ann_views(Seq::<Annotation>::empty()) =~= Seq::<AnnotationView>::empty());
            Ok(task)
        },
        _ => Err(DecodeError::MissingField),
    }
}

} // verus!

verus! {

/// The raw text of the first member of an object bearing the given key;
/// nothing when no member does.
pub open spec fn spec_find_member(ms: Seq<(Seq<char>, Seq<char>)>, key: Seq<char>) -> Option<
    Seq<char>,
>
    decreases ms.len(),
{
    if ms.len() == 0 {
        None
    } else if ms[0].0 == key {
        Some(ms[0].1)
    } else {
        spec_find_member(ms.drop_first(), key)
    }
}

/// Read one wire annotation from an object's members: an `entry` string and
/// a `description` string must be present; other members are ignored.
pub open spec fn spec_read_annotation(ms: Seq<(Seq<char>, Seq<char>)>) -> Result<
    (Seq<char>, Seq<char>),
    DecodeError,
> {
    match spec_find_member(ms, "entry"@) {
        Some(entry_raw) => match json::json_text_string(entry_raw) {
            Some(entry_text) => match spec_find_member(ms, "description"@) {
                Some(desc_raw) => match json::json_text_string(desc_raw) {
                    Some(desc) => Ok((entry_text, desc)),
                    None => Err(DecodeError::Malformed),
                },
                None => Err(DecodeError::Malformed),
            },
            None => Err(DecodeError::Malformed),
        },
        None => Err(DecodeError::Malformed),
    }
}

/// Read the wire annotation list from the members of an array of objects,
/// in order; the earliest malformed object decides.
pub open spec fn spec_read_annotations(objs: Seq<Seq<(Seq<char>, Seq<char>)>>) -> Result<
    Seq<(Seq<char>, Seq<char>)>,
    DecodeError,
>
    decreases objs.len(),
{
    if objs.len() == 0 {
        Ok(Seq::empty())
    } else {
        match spec_read_annotations(objs.drop_last()) {
            Ok(pre) => match spec_read_annotation(objs.last()) {
                Ok(a) => Ok(pre.push(a)),
                Err(e) => Err(e),
            },
            Err(e) => Err(e),
        }
    }
}

/// Classify one wire member by its key, reading its compact JSON text: the
/// named string fields must be JSON strings, project may also be `null`,
/// tags a JSON array of strings, annotations a JSON array of objects each
/// holding `entry` and `description` strings; every other member is kept
/// verbatim as its text.
pub open spec fn spec_classify(k: Seq<char>, raw: Seq<char>) -> Result<GVal, DecodeError> {
    if k == "status"@ || k == "uuid"@ || k == "entry"@ || k == "modified"@ || k
        == "description"@ {
        match json::json_text_string(raw) {
            Some(t) => Ok(GVal::Text(t)),
            None => Err(DecodeError::Malformed),
        }
    } else if k == "project"@ {
        match json::json_text_string(raw) {
            Some(t) => Ok(GVal::Text(t)),
            None => if raw == "null"@ {
                Ok(GVal::Null)
            } else {
                Err(DecodeError::Malformed)
            },
        }
    } else if k == "tags"@ {
        match json::json_text_strings(raw) {
            Some(l) => Ok(GVal::List(l)),
            None => Err(DecodeError::Malformed),
        }
    } else if k == "annotations"@ {
        match json::json_text_objects(raw) {
            Some(objs) => match spec_read_annotations(objs) {
                Ok(anns) => Ok(GVal::Anns(anns)),
                Err(e) => Err(e),
            },
            None => Err(DecodeError::Malformed),
        }
    } else {
        Ok(GVal::Opaque(raw))
    }
}

/// Classify every member of a wire object, keeping keys and their order;
/// the earliest malformed member decides.
pub open spec fn spec_classify_all(ms: Seq<(Seq<char>, Seq<char>)>) -> Result<
    Seq<(Seq<char>, GVal)>,
    DecodeError,
>
    decreases ms.len(),
{
    if ms.len() == 0 {
        Ok(Seq::empty())
    } else {
        match spec_classify_all(ms.drop_last()) {
            Ok(pre) => match spec_classify(ms.last().0, ms.last().1) {
                Ok(v) => Ok(pre.push((ms.last().0, v))),
                Err(e) => Err(e),
            },
            Err(e) => Err(e),
        }
    }
}

/// The full decode of a wire payload: the payload must be one JSON object,
/// its members classify per [`spec_classify_all`], and the classified
/// fields assemble per [`spec_task_from_raw`]. This is exactly what
/// [`Task::decode`] computes, success and error alike.
pub open spec fn spec_decode(s: Seq<char>) -> Result<TaskView, DecodeError> {
    match json::json_members_of(s) {
        Some(ms) => match spec_classify_all(ms) {
            Ok(fields) => spec_task_from_raw(fields),
            Err(e) => Err(e),
        },
        None => Err(DecodeError::Malformed),
    }
}

/// The raw text of the first member with the given key, per
/// [`spec_find_member`].
fn find_member(ms: &Vec<(String, String)>, key: &str) -> (r: Option<String>)
    ensures
        match r {
            Some(raw) => spec_find_member(str_pairs(ms@), key@) == Some(raw@),
            None => spec_find_member(str_pairs(ms@), key@) is None,
        },
{
    let ghost mv = str_pairs(ms@);
    let n = ms.len();
    let mut i: usize = 0;
    assert(mv.skip(0) =~= mv);
    while i < n
        invariant
            i <= n,
            n == ms@.len(),
            mv == str_pairs(ms@),
            spec_find_member(mv, key@) == spec_find_member(mv.skip(i as int), key@),
        decreases n - i,
    {
        assert(mv.skip(i as int)[0] == mv[i as int]);
        assert(mv.skip(i as int).drop_first() =~= mv.skip(i + 1));
        if str_eq(ms[i].0.as_str(), key) {
            return Some(ms[i].1.clone());
        }
        i = i + 1;
    }
    assert(mv.skip(n as int) =~= Seq::<(Seq<char>, Seq<char>)>::empty());
    None
}

/// Read one wire annotation object, per [`spec_read_annotation`].
fn read_annotation(ms: &Vec<(String, String)>) -> (r: Result<RawAnnotation, DecodeError>)
    ensures
        match r {
            Ok(a) => spec_read_annotation(str_pairs(ms@)) == Ok::<_, DecodeError>(
                (a.entry_text@, a.description@),
            ),
            Err(e) => spec_read_annotation(str_pairs(ms@)) == Err::<(Seq<char>, Seq<char>), _>(e),
        },
{
    let entry_raw = match find_member(ms, "entry") {
        Some(raw) => raw,
        None => {
            return Err(DecodeError::Malformed);
        },
    };
    let entry_text = match json::read_json_string(entry_raw.as_str()) {
        Some(t) => t,
        None => {
            return Err(DecodeError::Malformed);
        },
    };
    let desc_raw = match find_member(ms, "description") {
        Some(raw) => raw,
        None => {
            return Err(DecodeError::Malformed);
        },
    };
    let description = match json::read_json_string(desc_raw.as_str()) {
        Some(t) => t,
        None => {
            return Err(DecodeError::Malformed);
        },
    };
    Ok(RawAnnotation { entry_text, description })
}

/// Read the wire annotation list, per [`spec_read_annotations`].
fn read_annotations(objs: &Vec<Vec<(String, String)>>) -> (r: Result<
    Vec<RawAnnotation>,
    DecodeError,
>)
    ensures
        match r {
            Ok(anns) => spec_read_annotations(json::member_views(objs@)) == Ok::<_, DecodeError>(
                raw_ann_views(anns@),
            ),
            Err(e) => spec_read_annotations(json::member_views(objs@)) == Err::<
                Seq<(Seq<char>, Seq<char>)>,
                _,
            >(e),
        },
{
    let ghost ov = json::member_views(objs@);
    let n = objs.len();
    let mut out: Vec<RawAnnotation> = Vec::new();
    let mut i: usize = 0;
    assert(ov.take(0) =~= Seq::<Seq<(Seq<char>, Seq<char>)>>::empty());
    assert(raw_ann_views(out@) =~= Seq::<(Seq<char>, Seq<char>)>::empty());
    while i < n
        invariant
            i <= n,
            n == objs@.len(),
            ov == json::member_views(objs@),
            spec_read_annotations(ov.take(i as int)) == Ok::<_, DecodeError>(raw_ann_views(out@)),
        decreases n - i,
    {
        assert(ov.take(i + 1).drop_last() =~= ov.take(i as int));
        assert(ov.take(i + 1).last() == ov[i as int]);
        match read_annotation(&objs[i]) {
            Ok(a) => {
                let ghost prev = out@;
                let ghost a_view = (a.entry_text@, a.description@);
                out.push(a);
                assert(raw_ann_views(out@) =~= raw_ann_views(prev).push(a_view));
            },
            Err(e) => {
                assert(spec_read_annotations(ov.take(i + 1)) == Err::<
                    Seq<(Seq<char>, Seq<char>)>,
                    _,
                >(e));
                proof {
                    lemma_read_annotations_err_persists(ov, i + 1, e);
                }
                return Err(e);
            },
        }
        i = i + 1;
    }
    assert(ov.take(n as int) =~= ov);
    Ok(out)
}

proof fn lemma_read_annotations_err_persists(
    objs: Seq<Seq<(Seq<char>, Seq<char>)>>,
    i: int,
    e: DecodeError,
)
    requires
        0 <= i <= objs.len(),
        spec_read_annotations(objs.take(i)) == Err::<Seq<(Seq<char>, Seq<char>)>, DecodeError>(e),
    ensures
        spec_read_annotations(objs) == Err::<Seq<(Seq<char>, Seq<char>)>, DecodeError>(e),
    decreases objs.len() - i,
{
    if i < objs.len() {
        assert(objs.take(i + 1).drop_last() =~= objs.take(i));
        lemma_read_annotations_err_persists(objs, i + 1, e);
    } else {
        assert(objs.take(i) =~= objs);
    }
}

/// Classify one wire member, per [`spec_classify`].
fn classify_member(k: &String, raw: &String) -> (r: Result<RawVal, DecodeError>)
    ensures
        match r {
            Ok(v) => spec_classify(k@, raw@) == Ok::<GVal, DecodeError>(v@),
            Err(e) => spec_classify(k@, raw@) == Err::<GVal, DecodeError>(e),
        },
{
    let ks = k.as_str();
    if str_eq(ks, "status") || str_eq(ks, "uuid") || str_eq(ks, "entry") || str_eq(ks, "modified")
        || str_eq(ks, "description") {
        match json::read_json_string(raw.as_str()) {
            Some(t) => Ok(RawVal::Text(t)),
            None => Err(DecodeError::Malformed),
        }
    } else if str_eq(ks, "project") {
        match json::read_json_string(raw.as_str()) {
            Some(t) => Ok(RawVal::Text(t)),
            None => if str_eq(raw.as_str(), "null") {
                Ok(RawVal::Null)
            } else {
                Err(DecodeError::Malformed)
            },
        }
    } else if str_eq(ks, "tags") {
        match json::read_json_strings(raw.as_str()) {
            Some(l) => Ok(RawVal::List(l)),
            None => Err(DecodeError::Malformed),
        }
    } else if str_eq(ks, "annotations") {
        let objs = match json::read_json_objects(raw.as_str()) {
            Some(objs) => objs,
            None => {
                return Err(DecodeError::Malformed);
            },
        };
        match read_annotations(&objs) {
            Ok(anns) => Ok(RawVal::Anns(anns)),
            Err(e) => Err(e),
        }
    } else {
        Ok(RawVal::Opaque(raw.clone()))
    }
}

/// Classify every member of a parsed wire object, per
/// [`spec_classify_all`].
fn classify_members(members: &Vec<(String, String)>) -> (r: Result<
    Vec<(String, RawVal)>,
    DecodeError,
>)
    ensures
        match r {
            Ok(fields) => spec_classify_all(str_pairs(members@)) == Ok::<_, DecodeError>(
                raw_field_views(fields@),
            ),
            Err(e) => spec_classify_all(str_pairs(members@)) == Err::<Seq<(Seq<char>, GVal)>, _>(
                e,
            ),
        },
{
    let ghost mv = str_pairs(members@);
    let n = members.len();
    let mut out: Vec<(String, RawVal)> = Vec::new();
    let mut i: usize = 0;
    assert(mv.take(0) =~= Seq::<(Seq<char>, Seq<char>)>::empty());
    assert(raw_field_views(out@) =~= Seq::<(Seq<char>, GVal)>::empty());
    while i < n
        invariant
            i <= n,
            n == members@.len(),
            mv == str_pairs(members@),
            spec_classify_all(mv.take(i as int)) == Ok::<_, DecodeError>(raw_field_views(out@)),
        decreases n - i,
    {
        assert(mv.take(i + 1).drop_last() =~= mv.take(i as int));
        assert(mv.take(i + 1).last() == mv[i as int]);
        let pair = &members[i];
        match classify_member(&pair.0, &pair.1) {
            Ok(v) => {
                let ghost prev = out@;
                let ghost v_view = v@;
                out.push((pair.0.clone(), v));
                assert(raw_field_views(out@) =~= raw_field_views(prev).push(
                    (members@[i as int].0@, v_view),
                ));
            },
            Err(e) => {
                assert(spec_classify_all(mv.take(i + 1)) == Err::<Seq<(Seq<char>, GVal)>, _>(e));
                proof {
                    lemma_classify_all_err_persists(mv, i + 1, e);
                }
                return Err(e);
            },
        }
        i = i + 1;
    }
    assert(mv.take(n as int) =~= mv);
    Ok(out)
}

proof fn lemma_classify_all_err_persists(ms: Seq<(Seq<char>, Seq<char>)>, i: int, e: DecodeError)
    requires
        0 <= i <= ms.len(),
        spec_classify_all(ms.take(i)) == Err::<Seq<(Seq<char>, GVal)>, DecodeError>(e),
    ensures
        spec_classify_all(ms) == Err::<Seq<(Seq<char>, GVal)>, DecodeError>(e),
    decreases ms.len() - i,
{
    if i < ms.len() {
        assert(ms.take(i + 1).drop_last() =~= ms.take(i));
        lemma_classify_all_err_persists(ms, i + 1, e);
    } else {
        assert(ms.take(i) =~= ms);
    }
}

} // verus!

verus! {

/// Lowercasing a shape-valid identifier yields the canonical form.
proof fn lemma_lower_canonical(t: Seq<char>)
    requires
        uuid_shape(t),
    ensures
        canonical_uuid(lower_chars(t)),
{
    let l = lower_chars(t);
    assert(l.len() == 36);
    assert(forall|i: int| 0 <= i < 36 ==> l[i] == lower_char(#[trigger] t[i]));
    assert(uuid_shape(l)) by {
        assert(forall|i: int|
            0 <= i < 36 && !(i == 8 || i == 13 || i == 18 || i == 23) ==> is_hex_char(
                #[trigger] l[i],
            ));
        assert(lower_char('-') == '-');
    };
    assert(lower_chars(l) =~= l) by {
        assert(forall|i: int|
            0 <= i < 36 ==> lower_chars(l)[i] == lower_char(lower_char(#[trigger] t[i])));
    };
}

/// Deduplicated tags are pairwise distinct.
proof fn lemma_dedup_distinct(l: Seq<Seq<char>>)
    ensures
        distinct_seqs(dedup_tags(l)),
    decreases l.len(),
{
    if l.len() == 0 {
    } else {
        lemma_dedup_distinct(l.drop_last());
        let pre = dedup_tags(l.drop_last());
        if !pre.contains(l.last()) {
            assert(forall|i: int| 0 <= i < pre.len() ==> pre[i] != l.last());
        }
    }
}

/// Deduplication leaves an already-distinct tag list unchanged, and a
/// deduplicated list contains exactly the tags of the input.
proof fn lemma_dedup_identity(l: Seq<Seq<char>>)
    requires
        distinct_seqs(l),
    ensures
        dedup_tags(l) == l,
    decreases l.len(),
{
    if l.len() == 0 {
        assert(dedup_tags(l) =~= l);
    } else {
        assert(distinct_seqs(l.drop_last())) by {
            assert(forall|i: int, j: int|
                0 <= i < j < l.drop_last().len() ==> l.drop_last()[i] != l.drop_last()[j]);
        };
        lemma_dedup_identity(l.drop_last());
        let pre = dedup_tags(l.drop_last());
        assert(!pre.contains(l.last())) by {
            assert(forall|i: int| 0 <= i < l.len() - 1 ==> (#[trigger] l[i]) != l[l.len() - 1]);
            if pre.contains(l.last()) {
                let w = choose|w: int| 0 <= w < pre.len() && pre[w] == l.last();
                assert(l.drop_last()[w] == l[w]);
            }
        };
        assert(dedup_tags(l) =~= l);
    }
}

/// Every annotation a successful list parse yields has a well-formed
/// timestamp.
proof fn lemma_parse_anns_wf(l: Seq<(Seq<char>, Seq<char>)>, anns: Seq<AnnotationView>)
    requires
        spec_parse_anns(l) == Ok::<_, DecodeError>(anns),
    ensures
        forall|i: int| 0 <= i < anns.len() ==> (#[trigger] anns[i]).entry.wf(),
    decreases l.len(),
{
    if l.len() == 0 {
    } else {
        match spec_parse_anns(l.drop_last()) {
            Ok(pre) => {
                lemma_parse_anns_wf(l.drop_last(), pre);
            },
            Err(_) => {},
        }
    }
}

/// The accumulator facts every fold step preserves: timestamps seen are
/// well-formed instants, the identifier is canonical, the tags are distinct.
spec fn acc_ok(acc: DecAcc) -> bool {
    &&& (acc.entry matches Some(dt) ==> dt.wf())
    &&& (acc.modified matches Some(dt) ==> dt.wf())
    &&& (acc.uuid matches Some(u) ==> canonical_uuid(u))
    &&& (acc.tags matches Some(t) ==> distinct_seqs(t))
    &&& (acc.annotations matches Some(l) ==> forall|i: int|
        0 <= i < l.len() ==> (#[trigger] l[i]).entry.wf())
    &&& forall|i: int|
        0 <= i < acc.unknown.len() ==> !recognized_key((#[trigger] acc.unknown[i]).0)
}

proof fn lemma_step_ok(k: Seq<char>, v: GVal, acc: DecAcc, a2: DecAcc)
    requires
        acc_ok(acc),
        spec_step(k, v, acc) == Ok::<DecAcc, DecodeError>(a2),
    ensures
        acc_ok(a2),
{
    if k == "uuid"@ {
        match v {
            GVal::Text(t) => {
                if uuid_shape(t) {
                    lemma_lower_canonical(t);
                }
            },
            _ => {},
        }
    } else if k == "tags"@ {
        match v {
            GVal::List(l) => {
                lemma_dedup_distinct(l);
            },
            _ => {},
        }
    } else if k == "annotations"@ {
        match v {
            GVal::Anns(l) => {
                match spec_parse_anns(l) {
                    Ok(anns) => {
                        lemma_parse_anns_wf(l, anns);
                    },
                    Err(_) => {},
                }
            },
            _ => {},
        }
    }
}

proof fn lemma_fold_ok(fields: Seq<(Seq<char>, GVal)>, acc: DecAcc)
    requires
        spec_fold(fields) == Ok::<DecAcc, DecodeError>(acc),
    ensures
        acc_ok(acc),
    decreases fields.len(),
{
    if fields.len() == 0 {
    } else {
        match spec_fold(fields.drop_last()) {
            Ok(pre) => {
                lemma_fold_ok(fields.drop_last(), pre);
                lemma_step_ok(fields.last().0, fields.last().1, pre, acc);
            },
            Err(_) => {},
        }
    }
}

/// What a successful decode guarantees of the task it yields: well-formed
/// timestamps everywhere, a canonical lowercase identifier, and distinct
/// tags.
pub proof fn lemma_decode_guarantees(fields: Seq<(Seq<char>, GVal)>, tv: TaskView)
    requires
        spec_task_from_raw(fields) == Ok::<TaskView, DecodeError>(tv),
    ensures
        tv.wf(),
        canonical_uuid(tv.uuid),
        distinct_seqs(tv.tags),
        forall|i: int|
            0 <= i < tv.unknown_fields.len() ==> !recognized_key(
                (#[trigger] tv.unknown_fields[i]).0,
            ),
    decreases fields.len(),
{
    match spec_fold(fields) {
        Ok(acc) => {
            lemma_fold_ok(fields, acc);
        },
        Err(_) => {},
    }
}

impl Task {
    /// Decode one wire payload, success and error alike exactly per
    /// [`spec_decode`]: `Ok` when and only when the payload is one JSON
    /// object whose members classify per [`spec_classify_all`] and assemble
    /// per [`spec_task_from_raw`], and then the decoded task — with
    /// well-formed timestamps, a canonical lowercase identifier and
    /// distinct tags — is that assembly; otherwise the error the
    /// classification or assembly gives, `Malformed` for a payload that is
    /// no JSON object.
    ///
    /// Unrecognized members are retained verbatim, as their compact JSON
    /// text, in `unknown_fields`.
    pub fn decode(s: &str) -> (r: Result<Task, DecodeError>)
        ensures
            match r {
                Ok(t) => spec_decode(s@) == Ok::<TaskView, DecodeError>(t@),
                Err(e) => spec_decode(s@) == Err::<TaskView, DecodeError>(e),
            },
            r matches Ok(t) ==> {
                &&& t@.wf()
                &&& canonical_uuid(t@.uuid)
                &&& distinct_seqs(t@.tags)
                &&& forall|i: int|
                    0 <= i < t@.unknown_fields.len() ==> !recognized_key(
                        (#[trigger] t@.unknown_fields[i]).0,
                    )
            },
    {
        let members = match json::parse_object(s) {
            Some(members) => members,
            None => {
                return Err(DecodeError::Malformed);
            },
        };
        let fields = match classify_members(&members) {
            Ok(fields) => fields,
            Err(e) => {
                return Err(e);
            },
        };
        let r = task_from_raw(&fields);
        proof {
            match r {
                Ok(ref t) => {
                    lemma_decode_guarantees(raw_field_views(fields@), t@);
                },
                Err(_) => {},
            }
        }
        r
    }
}

} // verus!

verus! {

/// The JSON rendering of the tag array's elements: the quoted tags joined
/// with commas.
pub open spec fn spec_quoted_join(l: Seq<Seq<char>>) -> Seq<char>
    decreases l.len(),
{
    if l.len() == 0 {
        Seq::empty()
    } else if l.len() == 1 {
        json::spec_json_quote(l[0])
    } else {
        spec_quoted_join(l.drop_last()) + ","@ + json::spec_json_quote(l.last())
    }
}

/// The JSON rendering of one annotation object.
pub open spec fn spec_encode_ann(a: AnnotationView) -> Seq<char> {
    "{\"entry\":\""@ + spec_render_timestamp(a.entry) + "\",\"description\":"@
        + json::spec_json_quote(a.description) + "}"@
}

/// The JSON rendering of the annotation array's elements.
pub open spec fn spec_ann_join(l: Seq<AnnotationView>) -> Seq<char>
    decreases l.len(),
{
    if l.len() == 0 {
        Seq::empty()
    } else if l.len() == 1 {
        spec_encode_ann(l[0])
    } else {
        spec_ann_join(l.drop_last()) + ","@ + spec_encode_ann(l.last())
    }
}

/// The JSON rendering of the unrecognized fields: each spliced back as
/// `,"key":<text>` with its retained compact JSON text.
pub open spec fn spec_encode_unknowns(u: Seq<(Seq<char>, Seq<char>)>) -> Seq<char>
    decreases u.len(),
{
    if u.len() == 0 {
        Seq::empty()
    } else {
        spec_encode_unknowns(u.drop_last()) + ","@ + json::spec_json_quote(u.last().0) + ":"@
            + u.last().1
    }
}

/// The full wire rendering of a task: one compact JSON object holding the
/// named fields in fixed order — status, uuid, entry, description, project
/// (`null` when absent), tags, annotations, modified — followed by the
/// unrecognized fields in their retained order.
pub open spec fn spec_encode(tv: TaskView) -> Seq<char> {
    "{\"status\":\""@ + tv.status.spec_wire_text() + "\",\"uuid\":"@ + json::spec_json_quote(
        tv.uuid,
    ) + ",\"entry\":\""@ + spec_render_timestamp(tv.entry) + "\",\"description\":"@
        + json::spec_json_quote(tv.description) + ",\"project\":"@ + (match tv.project {
        Some(p) => json::spec_json_quote(p),
        None => "null"@,
    }) + ",\"tags\":["@ + spec_quoted_join(tv.tags) + "],\"annotations\":["@ + spec_ann_join(
        tv.annotations,
    ) + "],\"modified\":\""@ + spec_render_timestamp(tv.modified) + "\""@ + spec_encode_unknowns(
        tv.unknown_fields,
    ) + "}"@
}

impl Task {
    /// Write this record out in the wire format, per [`spec_encode`]:
    /// total and deterministic for every well-formed record; timestamps
    /// come out in the fixed format and unrecognized fields go back out
    /// verbatim.
    #[verifier::rlimit(60)]
    pub fn encode(&self) -> (r: String)
        requires
            self@.wf(),
        ensures
            r@ == spec_encode(self@),
    {
        let mut out = String::new();
        out.append("{\"status\":\"");
        out.append(self.status.wire_text());
        out.append("\",\"uuid\":");
        let q_uuid = json::json_quote(self.uuid.as_str());
        out.append(q_uuid.as_str());
        out.append(",\"entry\":\"");
        let ts_entry = chars_to_string(&render_timestamp(&self.entry));
        out.append(ts_entry.as_str());
        out.append("\",\"description\":");
        let q_desc = json::json_quote(self.description.as_str());
        out.append(q_desc.as_str());
        out.append(",\"project\":");
        match &self.project {
            Some(p) => {
                let q_p = json::json_quote(p.as_str());
                out.append(q_p.as_str());
            },
            None => {
                out.append("null");
            },
        }
        out.append(",\"tags\":[");
        let ghost tags_prefix = out@;
        let n_tags = self.tags.len();
        let mut i: usize = 0;
        while i < n_tags
            invariant
                i <= n_tags,
                n_tags == self.tags@.len(),
                out@ == tags_prefix + spec_quoted_join(strs(self.tags@).take(i as int)),
            decreases n_tags - i,
        {
            assert(strs(self.tags@).take(i + 1).drop_last() =~= strs(self.tags@).take(i as int));
            assert(strs(self.tags@).take(i + 1).last() == self.tags@[i as int]@);
            if i > 0 {
                out.append(",");
            }
            let q_tag = json::json_quote(self.tags[i].as_str());
            out.append(q_tag.as_str());
            i = i + 1;
            assert(out@ =~= tags_prefix + spec_quoted_join(strs(self.tags@).take(i as int)));
        }
        assert(strs(self.tags@).take(n_tags as int) =~= strs(self.tags@));
        out.append("],\"annotations\":[");
        let ghost anns_prefix = out@;
        let n_anns = self.annotations.len();
        let mut j: usize = 0;
        while j < n_anns
            invariant
                j <= n_anns,
                n_anns == self.annotations@.len(),
                self@.wf(),
                out@ == anns_prefix + spec_ann_join(ann_views(self.annotations@).take(j as int)),
            decreases n_anns - j,
        {
            assert(ann_views(self.annotations@).take(j + 1).drop_last() =~= ann_views(
                self.annotations@,
            ).take(j as int));
            assert(ann_views(self.annotations@).take(j + 1).last() == self.annotations@[j as int]@);
            if j > 0 {
                out.append(",");
            }
            out.append("{\"entry\":\"");
            assert(self.annotations@[j as int]@.entry.wf()) by {
                assert(self@.annotations[j as int].entry.wf());
                assert(self@.annotations[j as int] == self.annotations@[j as int]@);
            };
            let ts_ann = chars_to_string(&render_timestamp(&self.annotations[j].entry));
            out.append(ts_ann.as_str());
            out.append("\",\"description\":");
            let q_ann = json::json_quote(self.annotations[j].description.as_str());
            out.append(q_ann.as_str());
            out.append("}");
            j = j + 1;
            assert(out@ =~= anns_prefix + spec_ann_join(
                ann_views(self.annotations@).take(j as int),
            ));
        }
        assert(ann_views(self.annotations@).take(n_anns as int) =~= ann_views(self.annotations@));
        out.append("],\"modified\":\"");
        let ts_mod = chars_to_string(&render_timestamp(&self.modified));
        out.append(ts_mod.as_str());
        out.append("\"");
        let ghost unk_prefix = out@;
        let n_unk = self.unknown_fields.len();
        let mut k: usize = 0;
        while k < n_unk
            invariant
                k <= n_unk,
                n_unk == self.unknown_fields@.len(),
                out@ == unk_prefix + spec_encode_unknowns(
                    str_pairs(self.unknown_fields@).take(k as int),
                ),
            decreases n_unk - k,
        {
            assert(str_pairs(self.unknown_fields@).take(k + 1).drop_last() =~= str_pairs(
                self.unknown_fields@,
            ).take(k as int));
            assert(str_pairs(self.unknown_fields@).take(k + 1).last() == (
                self.unknown_fields@[k as int].0@,
                self.unknown_fields@[k as int].1@,
            ));
            out.append(",");
            let q_key = json::json_quote(self.unknown_fields[k].0.as_str());
            out.append(q_key.as_str());
            out.append(":");
            out.append(self.unknown_fields[k].1.as_str());
            k = k + 1;
            assert(out@ =~= unk_prefix + spec_encode_unknowns(
                str_pairs(self.unknown_fields@).take(k as int),
            ));
        }
        assert(str_pairs(self.unknown_fields@).take(n_unk as int) =~= str_pairs(
            self.unknown_fields@,
        ));
        out.append("}");
        assert(out@ =~= spec_encode(self@));
        out
    }
}

} // verus!

verus! {

/// Relies on `uuid::Uuid::new_v4` and its `Display` rendering: a fresh
/// random version-4 identifier, formatted in the canonical lowercase
/// hyphenated form (36 characters, hyphens at positions 8, 13, 18 and 23,
/// lowercase hexadecimal digits elsewhere).
#[verifier::external_body]
fn fresh_uuid_string() -> (r: String)
    ensures
        canonical_uuid(r@),
{
    uuid::Uuid::new_v4().to_string()
}

impl Task {
    /// A fresh pending task with the given description: a new random
    /// identifier, creation and modification stamped with the current UTC
    /// instant, and no project, tags, annotations or unrecognized fields.
    pub fn new(description: &str) -> (r: Task)
        ensures
            r@.status == Status::Pending,
            canonical_uuid(r@.uuid),
            r@.description == description@,
            r@.project is None,
            r@.tags == Seq::<Seq<char>>::empty(),
            r@.annotations == Seq::<AnnotationView>::empty(),
            r@.unknown_fields == Seq::<(Seq<char>, Seq<char>)>::empty(),
            r@.entry == r@.modified,
            r@.wf(),
    {
        let now = now_utc();
        let r = Task {
            status: Status::Pending,
            uuid: fresh_uuid_string(),
            entry: now,
            description: String::from_str(description),
            project: None,
            tags: Vec::new(),
            annotations: Vec::new(),
            modified: now,
            unknown_fields: Vec::new(),
        };
        assert(r@.tags =~= Seq::<Seq<char>>::empty());
        assert(r@.annotations =~= Seq::<AnnotationView>::empty());
        assert(r@.unknown_fields =~= Seq::<(Seq<char>, Seq<char>)>::empty());
        r
    }

    /// Add `tag` to the tag set; one that the set already holds is not
    /// duplicated, and every other field is unchanged.
    pub fn with_tag(self, tag: &str) -> (r: Task)
        ensures
            r@ == (TaskView {
                tags: if self@.tags.contains(tag@) {
                    self@.tags
                } else {
                    self@.tags.push(tag@)
                },
                ..self@
            }),
    {
        let ghost old_view = self@;
        let mut t = self;
        if !contains_string(&t.tags, tag) {
            t.tags.push(String::from_str(tag));
            assert(strs(t.tags@) =~= old_view.tags.push(tag@));
        }
        t
    }

    /// Pure membership test against the tag set: exact string match, no
    /// normalization.
    pub fn has_tag(&self, tag: &str) -> (r: bool)
        ensures
            r == self@.tags.contains(tag@),
    {
        contains_string(&self.tags, tag)
    }
}

impl Annotation {
    /// A fresh annotation whose entry is the current UTC instant.
    pub fn new(description: &str) -> (r: Annotation)
        ensures
            r@.description == description@,
            r@.entry.wf(),
    {
        Annotation { entry: now_utc(), description: String::from_str(description) }
    }
}

} // verus!

verus! {

/// Whether `k` is one of the eight named wire fields.
pub open spec fn recognized_key(k: Seq<char>) -> bool {
    ||| k == "status"@
    ||| k == "uuid"@
    ||| k == "entry"@
    ||| k == "description"@
    ||| k == "project"@
    ||| k == "tags"@
    ||| k == "annotations"@
    ||| k == "modified"@
}

/// The wire bindings a task encodes to: the eight named fields in the order
/// [`spec_encode`] writes them, followed by the unrecognized fields.
pub open spec fn fields_of(tv: TaskView) -> Seq<(Seq<char>, GVal)> {
    seq![
        ("status"@, GVal::Text(tv.status.spec_wire_text())),
        ("uuid"@, GVal::Text(tv.uuid)),
        ("entry"@, GVal::Text(spec_render_timestamp(tv.entry))),
        ("description"@, GVal::Text(tv.description)),
        (
            "project"@,
            match tv.project {
                Some(p) => GVal::Text(p),
                None => GVal::Null,
            },
        ),
        ("tags"@, GVal::List(tv.tags)),
        (
            "annotations"@,
            GVal::Anns(
                tv.annotations.map_values(
                    |a: AnnotationView| (spec_render_timestamp(a.entry), a.description),
                ),
            ),
        ),
        ("modified"@, GVal::Text(spec_render_timestamp(tv.modified))),
    ] + tv.unknown_fields.map_values(|p: (Seq<char>, Seq<char>)| (p.0, GVal::Opaque(p.1)))
}

/// The eight named wire keys are pairwise different.
proof fn lemma_named_keys_distinct()
    ensures
        "status"@ != "uuid"@,
        "status"@ != "entry"@,
        "status"@ != "description"@,
        "status"@ != "project"@,
        "status"@ != "tags"@,
        "status"@ != "annotations"@,
        "status"@ != "modified"@,
        "uuid"@ != "entry"@,
        "uuid"@ != "description"@,
        "uuid"@ != "project"@,
        "uuid"@ != "tags"@,
        "uuid"@ != "annotations"@,
        "uuid"@ != "modified"@,
        "entry"@ != "description"@,
        "entry"@ != "project"@,
        "entry"@ != "tags"@,
        "entry"@ != "annotations"@,
        "entry"@ != "modified"@,
        "description"@ != "project"@,
        "description"@ != "tags"@,
        "description"@ != "annotations"@,
        "description"@ != "modified"@,
        "project"@ != "tags"@,
        "project"@ != "annotations"@,
        "project"@ != "modified"@,
        "tags"@ != "annotations"@,
        "tags"@ != "modified"@,
        "annotations"@ != "modified"@,
{
    reveal_strlit("status");
    reveal_strlit("uuid");
    reveal_strlit("entry");
    reveal_strlit("description");
    reveal_strlit("project");
    reveal_strlit("tags");
    reveal_strlit("annotations");
    reveal_strlit("modified");
    assert("status"@.len() == 6);
    assert("uuid"@.len() == 4);
    assert("entry"@.len() == 5);
    assert("description"@.len() == 11);
    assert("project"@.len() == 7);
    assert("tags"@.len() == 4);
    assert("annotations"@.len() == 11);
    assert("modified"@.len() == 8);
    assert("uuid"@[0] != "tags"@[0]);
    assert("description"@[0] != "annotations"@[0]);
}

/// A status token parses back to the status that rendered it.
proof fn lemma_status_round_trip(st: Status)
    ensures
        Status::spec_of_text(st.spec_wire_text()) == Some(st),
{
    reveal_strlit("pending");
    reveal_strlit("deleted");
    reveal_strlit("completed");
    reveal_strlit("waiting");
    reveal_strlit("recurring");
    assert("deleted"@[0] != "pending"@[0]);
    assert("completed"@[0] != "pending"@[0]);
    assert("completed"@[0] != "deleted"@[0]);
    assert("waiting"@[0] != "pending"@[0]);
    assert("recurring"@[0] != "pending"@[0]);
    assert("recurring"@[0] != "waiting"@[0]);
}

/// Rendered annotations parse back to themselves.
proof fn lemma_anns_round_trip(l: Seq<AnnotationView>)
    requires
        forall|i: int| 0 <= i < l.len() ==> (#[trigger] l[i]).entry.wf(),
    ensures
        spec_parse_anns(
            l.map_values(|a: AnnotationView| (spec_render_timestamp(a.entry), a.description)),
        ) == Ok::<_, DecodeError>(l),
    decreases l.len(),
{
    let m = l.map_values(|a: AnnotationView| (spec_render_timestamp(a.entry), a.description));
    if l.len() == 0 {
        assert(m =~= Seq::<(Seq<char>, Seq<char>)>::empty());
        assert(l =~= Seq::<AnnotationView>::empty());
        assert(spec_parse_anns(m) == Ok::<Seq<AnnotationView>, DecodeError>(l));
    } else {
        assert(forall|i: int|
            0 <= i < l.drop_last().len() ==> (#[trigger] l.drop_last()[i]).entry.wf());
        lemma_anns_round_trip(l.drop_last());
        assert(m.drop_last() =~= l.drop_last().map_values(
            |a: AnnotationView| (spec_render_timestamp(a.entry), a.description),
        ));
        crate::datetime::lemma_timestamp_parse_render(l.last().entry);
        assert(m.last() == (spec_render_timestamp(l.last().entry), l.last().description));
        assert(l.drop_last().push(l.last()) =~= l);
    }
}

/// Folding a run of unrecognized bindings appends them, in order, to the
/// accumulator's unrecognized fields and changes nothing else.
proof fn lemma_fold_unknown_suffix(
    base: Seq<(Seq<char>, GVal)>,
    acc0: DecAcc,
    u: Seq<(Seq<char>, Seq<char>)>,
)
    requires
        spec_fold(base) == Ok::<DecAcc, DecodeError>(acc0),
        forall|i: int| 0 <= i < u.len() ==> !recognized_key((#[trigger] u[i]).0),
    ensures
        spec_fold(
            base + u.map_values(|p: (Seq<char>, Seq<char>)| (p.0, GVal::Opaque(p.1))),
        ) == Ok::<DecAcc, DecodeError>(DecAcc { unknown: acc0.unknown + u, ..acc0 }),
    decreases u.len(),
{
    let m = u.map_values(|p: (Seq<char>, Seq<char>)| (p.0, GVal::Opaque(p.1)));
    if u.len() == 0 {
        assert(base + m =~= base);
        assert(acc0.unknown + u =~= acc0.unknown);
        assert(DecAcc { unknown: acc0.unknown + u, ..acc0 } == acc0);
    } else {
        let upre = u.drop_last();
        assert(forall|i: int| 0 <= i < upre.len() ==> !recognized_key((#[trigger] upre[i]).0));
        lemma_fold_unknown_suffix(base, acc0, upre);
        let mpre = upre.map_values(|p: (Seq<char>, Seq<char>)| (p.0, GVal::Opaque(p.1)));
        assert((base + m).drop_last() =~= base + mpre);
        assert((base + m).last() == m.last());
        assert(m.last() == (u.last().0, GVal::Opaque(u.last().1)));
        let accpre = DecAcc { unknown: acc0.unknown + upre, ..acc0 };
        assert(!recognized_key(u.last().0));
        assert(spec_step(u.last().0, GVal::Opaque(u.last().1), accpre) == Ok::<
            DecAcc,
            DecodeError,
        >(DecAcc { unknown: accpre.unknown.push(u.last()), ..accpre }));
        assert(accpre.unknown.push(u.last()) =~= acc0.unknown + u);
    }
}

/// Round trip: a task written out as its wire bindings decodes back to
/// exactly itself. This holds of every well-formed task whose identifier is
/// canonical, whose tags are distinct, and whose retained unrecognized
/// fields carry unrecognized keys — which is exactly what a successful
/// decode produces ([`lemma_decode_guarantees`]) and what the constructors
/// maintain.
pub proof fn lemma_round_trip(tv: TaskView)
    requires
        tv.wf(),
        canonical_uuid(tv.uuid),
        distinct_seqs(tv.tags),
        forall|i: int|
            0 <= i < tv.unknown_fields.len() ==> !recognized_key(
                (#[trigger] tv.unknown_fields[i]).0,
            ),
    ensures
        spec_task_from_raw(fields_of(tv)) == Ok::<TaskView, DecodeError>(tv),
{
    lemma_named_keys_distinct();
    let f = fields_of(tv);
    let named = seq![
        ("status"@, GVal::Text(tv.status.spec_wire_text())),
        ("uuid"@, GVal::Text(tv.uuid)),
        ("entry"@, GVal::Text(spec_render_timestamp(tv.entry))),
        ("description"@, GVal::Text(tv.description)),
        (
            "project"@,
            match tv.project {
                Some(p) => GVal::Text(p),
                None => GVal::Null,
            },
        ),
        ("tags"@, GVal::List(tv.tags)),
        (
            "annotations"@,
            GVal::Anns(
                tv.annotations.map_values(
                    |a: AnnotationView| (spec_render_timestamp(a.entry), a.description),
                ),
            ),
        ),
        ("modified"@, GVal::Text(spec_render_timestamp(tv.modified))),
    ];
    let acc0 = empty_acc();
    assert(named.take(0) =~= Seq::<(Seq<char>, GVal)>::empty());
    assert(spec_fold(named.take(0)) == Ok::<DecAcc, DecodeError>(acc0));

    lemma_status_round_trip(tv.status);
    let acc1 = DecAcc { status: Some(tv.status), ..acc0 };
    assert(named.take(1).drop_last() =~= named.take(0));
    assert(spec_fold(named.take(1)) == Ok::<DecAcc, DecodeError>(acc1));

    let acc2 = DecAcc { uuid: Some(tv.uuid), ..acc1 };
    assert(named.take(2).drop_last() =~= named.take(1));
    assert(spec_fold(named.take(2)) == Ok::<DecAcc, DecodeError>(acc2));

    crate::datetime::lemma_timestamp_parse_render(tv.entry);
    let acc3 = DecAcc { entry: Some(tv.entry), ..acc2 };
    assert(named.take(3).drop_last() =~= named.take(2));
    assert(spec_fold(named.take(3)) == Ok::<DecAcc, DecodeError>(acc3));

    let acc4 = DecAcc { description: Some(tv.description), ..acc3 };
    assert(named.take(4).drop_last() =~= named.take(3));
    assert(spec_fold(named.take(4)) == Ok::<DecAcc, DecodeError>(acc4));

    let acc5 = DecAcc { project: Some(tv.project), ..acc4 };
    assert(named.take(5).drop_last() =~= named.take(4));
    assert(spec_fold(named.take(5)) == Ok::<DecAcc, DecodeError>(acc5));

    lemma_dedup_identity(tv.tags);
    let acc6 = DecAcc { tags: Some(tv.tags), ..acc5 };
    assert(named.take(6).drop_last() =~= named.take(5));
    assert(spec_fold(named.take(6)) == Ok::<DecAcc, DecodeError>(acc6));

    assert(forall|i: int| 0 <= i < tv.annotations.len() ==> (#[trigger] tv.annotations[i]).entry.wf());
    lemma_anns_round_trip(tv.annotations);
    let acc7 = DecAcc { annotations: Some(tv.annotations), ..acc6 };
    assert(named.take(7).drop_last() =~= named.take(6));
    assert(spec_fold(named.take(7)) == Ok::<DecAcc, DecodeError>(acc7));

    crate::datetime::lemma_timestamp_parse_render(tv.modified);
    let acc8 = DecAcc { modified: Some(tv.modified), ..acc7 };
    assert(named.take(8).drop_last() =~= named.take(7));
    assert(named.take(8) =~= named);
    assert(spec_fold(named) == Ok::<DecAcc, DecodeError>(acc8));

    lemma_fold_unknown_suffix(named, acc8, tv.unknown_fields);
    assert(f =~= named + tv.unknown_fields.map_values(
        |p: (Seq<char>, Seq<char>)| (p.0, GVal::Opaque(p.1)),
    ));
    let accf = DecAcc { unknown: acc8.unknown + tv.unknown_fields, ..acc8 };
    assert(spec_fold(f) == Ok::<DecAcc, DecodeError>(accf));
    assert(accf.unknown =~= tv.unknown_fields);
    match spec_finish(accf) {
        Ok(out) => {
            assert(out == tv);
        },
        Err(_) => {
            assert(false);
        },
    }
}

} // verus!

verus! {

/// Whether two string vectors hold the same strings in the same order.
fn vec_str_eq(a: &Vec<String>, b: &Vec<String>) -> (r: bool)
    ensures
        r == (strs(a@) == strs(b@)),
{
    let n = a.len();
    if n != b.len() {
        assert(strs(a@).len() != strs(b@).len());
        return false;
    }
    let mut i: usize = 0;
    while i < n
        invariant
            i <= n,
            n == a@.len() == b@.len(),
            forall|j: int| 0 <= j < i ==> strs(a@)[j] == strs(b@)[j],
        decreases n - i,
    {
        if !str_eq(a[i].as_str(), b[i].as_str()) {
            assert(strs(a@)[i as int] != strs(b@)[i as int]);
            return false;
        }
        assert(strs(a@)[i as int] == strs(b@)[i as int]);
        i = i + 1;
    }
    assert(strs(a@) =~= strs(b@));
    true
}

/// Whether two annotation vectors hold the same annotations in the same
/// order.
fn vec_ann_eq(a: &Vec<Annotation>, b: &Vec<Annotation>) -> (r: bool)
    ensures
        r == (ann_views(a@) == ann_views(b@)),
{
    let n = a.len();
    if n != b.len() {
        assert(ann_views(a@).len() != ann_views(b@).len());
        return false;
    }
    let mut i: usize = 0;
    while i < n
        invariant
            i <= n,
            n == a@.len() == b@.len(),
            forall|j: int| 0 <= j < i ==> ann_views(a@)[j] == ann_views(b@)[j],
        decreases n - i,
    {
        let same = a[i].entry == b[i].entry && str_eq(
            a[i].description.as_str(),
            b[i].description.as_str(),
        );
        if !same {
            assert(ann_views(a@)[i as int] != ann_views(b@)[i as int]);
            return false;
        }
        assert(ann_views(a@)[i as int] == ann_views(b@)[i as int]);
        i = i + 1;
    }
    assert(ann_views(a@) =~= ann_views(b@));
    true
}

/// Whether two string-pair vectors hold the same pairs in the same order.
fn vec_pair_eq(a: &Vec<(String, String)>, b: &Vec<(String, String)>) -> (r: bool)
    ensures
        r == (str_pairs(a@) == str_pairs(b@)),
{
    let n = a.len();
    if n != b.len() {
        assert(str_pairs(a@).len() != str_pairs(b@).len());
        return false;
    }
    let mut i: usize = 0;
    while i < n
        invariant
            i <= n,
            n == a@.len() == b@.len(),
            forall|j: int| 0 <= j < i ==> str_pairs(a@)[j] == str_pairs(b@)[j],
        decreases n - i,
    {
        let same = str_eq(a[i].0.as_str(), b[i].0.as_str()) && str_eq(
            a[i].1.as_str(),
            b[i].1.as_str(),
        );
        if !same {
            assert(str_pairs(a@)[i as int] != str_pairs(b@)[i as int]);
            return false;
        }
        assert(str_pairs(a@)[i as int] == str_pairs(b@)[i as int]);
        i = i + 1;
    }
    assert(str_pairs(a@) =~= str_pairs(b@));
    true
}

impl PartialEq for Task {
    fn eq(&self, other: &Task) -> (r: bool) {
        let project_eq = match (&self.project, &other.project) {
            (Some(a), Some(b)) => str_eq(a.as_str(), b.as_str()),
            (None, None) => true,
            _ => false,
        };
        let r = self.status == other.status && str_eq(self.uuid.as_str(), other.uuid.as_str())
            && self.entry == other.entry && str_eq(
            self.description.as_str(),
            other.description.as_str(),
        ) && project_eq && vec_str_eq(&self.tags, &other.tags) && vec_ann_eq(
            &self.annotations,
            &other.annotations,
        ) && self.modified == other.modified && vec_pair_eq(
            &self.unknown_fields,
            &other.unknown_fields,
        );
        r
    }
}

impl vstd::std_specs::cmp::PartialEqSpecImpl for Task {
    open spec fn obeys_eq_spec() -> bool {
        true
    }

    open spec fn eq_spec(&self, other: &Task) -> bool {
        self@ == other@
    }
}

} // verus!

verus! {

/// A wire binding as the encoder writes it back: the identifier lowercased,
/// duplicate tags dropped, everything else unchanged.
pub open spec fn spec_canonical_binding(k: Seq<char>, v: GVal) -> GVal {
    if k == "uuid"@ {
        match v {
            GVal::Text(t) => GVal::Text(lower_chars(t)),
            _ => v,
        }
    } else if k == "tags"@ {
        match v {
            GVal::List(l) => GVal::List(dedup_tags(l)),
            _ => v,
        }
    } else {
        v
    }
}

/// How a single decoded binding shows in the finished accumulator.
spec fn binding_reflected(k: Seq<char>, v: GVal, acc: DecAcc) -> bool {
    if k == "status"@ {
        v matches GVal::Text(t) && Status::spec_of_text(t) is Some && acc.status
            == Status::spec_of_text(t)
    } else if k == "uuid"@ {
        v matches GVal::Text(t) && uuid_shape(t) && acc.uuid == Some(lower_chars(t))
    } else if k == "entry"@ {
        v matches GVal::Text(t) && spec_parse_timestamp(t) is Some && acc.entry
            == spec_parse_timestamp(t)
    } else if k == "description"@ {
        v matches GVal::Text(t) && acc.description == Some(t)
    } else if k == "project"@ {
        (v matches GVal::Text(t) && acc.project == Some(Some(t))) || (v is Null && acc.project
            == Some(None::<Seq<char>>))
    } else if k == "tags"@ {
        v matches GVal::List(l) && acc.tags == Some(dedup_tags(l))
    } else if k == "annotations"@ {
        v matches GVal::Anns(l) && spec_parse_anns(l) is Ok && acc.annotations == Some(
            spec_parse_anns(l)->Ok_0,
        )
    } else if k == "modified"@ {
        v matches GVal::Text(t) && spec_parse_timestamp(t) is Some && acc.modified
            == spec_parse_timestamp(t)
    } else {
        v matches GVal::Opaque(raw) && acc.unknown.contains((k, raw))
    }
}

/// One fold step never unsets a named field and never drops an unrecognized
/// binding, so a binding once reflected stays reflected.
proof fn lemma_step_keeps_reflected(
    k0: Seq<char>,
    v0: GVal,
    k: Seq<char>,
    v: GVal,
    acc: DecAcc,
    a2: DecAcc,
)
    requires
        binding_reflected(k0, v0, acc),
        spec_step(k, v, acc) == Ok::<DecAcc, DecodeError>(a2),
    ensures
        binding_reflected(k0, v0, a2),
{
    if !recognized_key(k0) {
        let raw = v0->Opaque_0;
        let w = choose|w: int| 0 <= w < acc.unknown.len() && acc.unknown[w] == (k0, raw);
        assert(0 <= w < a2.unknown.len() && a2.unknown[w] == (k0, raw));
        assert(a2.unknown.contains((k0, raw)));
    }
}

/// After a successful fold, every binding of the field list is reflected in
/// the accumulator.
proof fn lemma_fold_reflects(fields: Seq<(Seq<char>, GVal)>, acc: DecAcc, i: int)
    requires
        spec_fold(fields) == Ok::<DecAcc, DecodeError>(acc),
        0 <= i < fields.len(),
    ensures
        binding_reflected(fields[i].0, fields[i].1, acc),
    decreases fields.len(),
{
    let pre = fields.drop_last();
    match spec_fold(pre) {
        Ok(accp) => {
            if i < fields.len() - 1 {
                lemma_fold_reflects(pre, accp, i);
                lemma_step_keeps_reflected(
                    fields[i].0,
                    fields[i].1,
                    fields.last().0,
                    fields.last().1,
                    accp,
                    acc,
                );
            } else {
                assert(spec_step(fields.last().0, fields.last().1, accp) == Ok::<
                    DecAcc,
                    DecodeError,
                >(acc));
                if !recognized_key(fields.last().0) {
                    assert(acc.unknown.last() == (fields.last().0, fields.last().1->Opaque_0));
                }
            }
        },
        Err(_) => {
            assert(false);
        },
    }
}

/// A recognized status token renders back to itself.
proof fn lemma_status_text_inverse(t: Seq<char>, st: Status)
    requires
        Status::spec_of_text(t) == Some(st),
    ensures
        st.spec_wire_text() == t,
{
}

/// Annotations that parsed render back to exactly the entry texts and
/// descriptions they came from.
proof fn lemma_anns_render_inverse(l: Seq<(Seq<char>, Seq<char>)>, anns: Seq<AnnotationView>)
    requires
        spec_parse_anns(l) == Ok::<_, DecodeError>(anns),
    ensures
        anns.map_values(|a: AnnotationView| (spec_render_timestamp(a.entry), a.description)) == l,
    decreases l.len(),
{
    let m = anns.map_values(|a: AnnotationView| (spec_render_timestamp(a.entry), a.description));
    if l.len() == 0 {
        assert(m =~= l);
    } else {
        match spec_parse_anns(l.drop_last()) {
            Ok(pre) => {
                lemma_anns_render_inverse(l.drop_last(), pre);
                match spec_parse_timestamp(l.last().0) {
                    Some(dt) => {
                        crate::datetime::lemma_timestamp_render_parse(l.last().0, dt);
                        assert(anns.drop_last() =~= pre);
                        assert(m =~= pre.map_values(
                            |a: AnnotationView| (spec_render_timestamp(a.entry), a.description),
                        ).push((spec_render_timestamp(dt), l.last().1)));
                        assert(m =~= l);
                    },
                    None => {
                        assert(false);
                    },
                }
            },
            Err(_) => {
                assert(false);
            },
        }
    }
}

/// Decoding then encoding reproduces every wire binding: each member of a
/// successfully decoded field list appears among the encoded task's
/// bindings, byte for byte — the identifier lowercased into canonical form
/// and duplicate tags dropped, timestamps included unchanged since the
/// strict format admits exactly one rendering per instant.
pub proof fn lemma_decode_encode_reproduces(fields: Seq<(Seq<char>, GVal)>, tv: TaskView, i: int)
    requires
        spec_task_from_raw(fields) == Ok::<TaskView, DecodeError>(tv),
        0 <= i < fields.len(),
    ensures
        fields_of(tv).contains(
            (fields[i].0, spec_canonical_binding(fields[i].0, fields[i].1)),
        ),
{
    let k = fields[i].0;
    let v = fields[i].1;
    let out = fields_of(tv);
    match spec_fold(fields) {
        Ok(acc) => {
            lemma_fold_reflects(fields, acc, i);
            lemma_named_keys_distinct();
            if k == "status"@ {
                let t = v->Text_0;
                lemma_status_text_inverse(t, tv.status);
                assert(out[0] == (k, spec_canonical_binding(k, v)));
            } else if k == "uuid"@ {
                assert(out[1] == (k, spec_canonical_binding(k, v)));
            } else if k == "entry"@ {
                let t = v->Text_0;
                crate::datetime::lemma_timestamp_render_parse(t, tv.entry);
                assert(out[2] == (k, spec_canonical_binding(k, v)));
            } else if k == "description"@ {
                assert(out[3] == (k, spec_canonical_binding(k, v)));
            } else if k == "project"@ {
                assert(out[4] == (k, spec_canonical_binding(k, v)));
            } else if k == "tags"@ {
                assert(out[5] == (k, spec_canonical_binding(k, v)));
            } else if k == "annotations"@ {
                let l = v->Anns_0;
                lemma_anns_render_inverse(l, tv.annotations);
                assert(out[6] == (k, spec_canonical_binding(k, v)));
            } else if k == "modified"@ {
                let t = v->Text_0;
                crate::datetime::lemma_timestamp_render_parse(t, tv.modified);
                assert(out[7] == (k, spec_canonical_binding(k, v)));
            } else {
                let raw = v->Opaque_0;
                assert(tv.unknown_fields.contains((k, raw)));
                let w = choose|w: int|
                    0 <= w < tv.unknown_fields.len() && tv.unknown_fields[w] == (k, raw);
                assert(out[8 + w] == (k, GVal::Opaque(raw)));
                assert(spec_canonical_binding(k, v) == GVal::Opaque(raw));
            }
        },
        Err(_) => {
            assert(false);
        },
    }
}

} // verus!

verus! {

impl Task {
    /// Runtime check of [`TaskView::wf`]: every timestamp this record holds
    /// is a well-formed instant.
    pub fn is_well_formed(&self) -> (r: bool)
        ensures
            r == self@.wf(),
    {
        if !self.entry.well_formed() || !self.modified.well_formed() {
            return false;
        }
        let n = self.annotations.len();
        let mut i: usize = 0;
        while i < n
            invariant
                i <= n,
                n == self.annotations@.len(),
                forall|j: int| 0 <= j < i ==> (#[trigger] ann_views(self.annotations@)[j]).entry.wf(),
        decreases n - i,
        {
            if !self.annotations[i].entry.well_formed() {
                assert(!self@.wf()) by {
                    assert(self@.annotations[i as int] == ann_views(self.annotations@)[i as int]);
                    assert(!ann_views(self.annotations@)[i as int].entry.wf());
                };
                return false;
            }
            assert(ann_views(self.annotations@)[i as int].entry.wf());
            i = i + 1;
        }
        true
    }
}

} // verus!

verus! {

/// Every decoded task round-trips: what a successful decode yields, written
/// back out as its wire bindings, decodes to exactly the same task. The
/// decode itself guarantees everything the round trip needs — well-formed
/// timestamps, a canonical identifier, distinct tags, and unrecognized keys
/// in the retained fields.
pub proof fn lemma_decoded_task_round_trips(fields: Seq<(Seq<char>, GVal)>, tv: TaskView)
    requires
        spec_task_from_raw(fields) == Ok::<TaskView, DecodeError>(tv),
    ensures
        spec_task_from_raw(fields_of(tv)) == Ok::<TaskView, DecodeError>(tv),
{
    lemma_decode_guarantees(fields, tv);
    lemma_round_trip(tv);
}

/// The payload-level corollary: every task decoded from a wire payload,
/// written back out as its wire bindings, decodes to exactly itself.
pub proof fn lemma_decoded_payload_round_trips(s: Seq<char>, tv: TaskView)
    requires
        spec_decode(s) == Ok::<TaskView, DecodeError>(tv),
    ensures
        spec_task_from_raw(fields_of(tv)) == Ok::<TaskView, DecodeError>(tv),
{
    match json::json_members_of(s) {
        Some(ms) => {
            match spec_classify_all(ms) {
                Ok(fields) => {
                    lemma_decoded_task_round_trips(fields, tv);
                },
                Err(_) => {
                    assert(false);
                },
            }
        },
        None => {
            assert(false);
        },
    }
}

} // verus!
