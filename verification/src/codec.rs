//! Reading records from JSON objects and writing them back.
//!
//! A record is written as an object whose entries follow a fixed table of
//! keys; an entry of the table may be left out. Reading looks each key up
//! again. A strict record refuses every key that its table does not hold.
//!
//! Reading reports one failure: for a value that is no object, that; else,
//! in a strict record, the first key in document order that the record does
//! not declare; else the first declared key, in document order, that stands
//! twice; else the first field, in declared order, that is missing or cannot
//! be read. A failure inside a nested record is reported as that record's
//! own.

use vstd::prelude::*;
use crate::error::{failure, outcome, Entity, ErrorKind, ParseError, ParseErrorView};
use crate::json::{lookup, Json, JsonView};
use crate::text::str_eq;

verus! {

/// The character sequences of a fixed list of names.
pub open spec fn names<const N: usize>(list: [&str; N]) -> Seq<Seq<char>> {
    Seq::new(N as nat, |i: int| list@[i]@)
}

/// The first key of `fields`, in document order, that `allowed` does not hold.
pub open spec fn first_unknown(
    fields: Seq<(Seq<char>, JsonView)>,
    allowed: Seq<Seq<char>>,
) -> Option<Seq<char>>
    decreases fields.len(),
{
    if fields.len() == 0 {
        None
    } else if !allowed.contains(fields[0].0) {
        Some(fields[0].0)
    } else {
        first_unknown(fields.skip(1), allowed)
    }
}

/// The failure for the first key of `fields` that `allowed` does not hold,
/// if there is one.
pub open spec fn unknown_field(
    fields: Seq<(Seq<char>, JsonView)>,
    entity: Entity,
    allowed: Seq<Seq<char>>,
) -> Option<ParseErrorView> {
    match first_unknown(fields, allowed) {
        Some(key) => Some(failure(ErrorKind::UnknownField, entity, key)),
        None => None,
    }
}

/// Whether the key of the entry at `i` stands again further on in `fields`.
pub open spec fn stands_again(fields: Seq<(Seq<char>, JsonView)>, i: int) -> bool {
    exists|m: int| i < m < fields.len() && (#[trigger] fields[m]).0 == fields[i].0
}

/// The first key of `fields`, in document order, that `declared` holds and
/// that stands again further on.
#[verifier::opaque]
pub open spec fn first_repeated(
    fields: Seq<(Seq<char>, JsonView)>,
    declared: Seq<Seq<char>>,
) -> Option<Seq<char>>
    decreases fields.len(),
{
    if fields.len() == 0 {
        None
    } else if declared.contains(fields[0].0) && stands_again(fields, 0) {
        Some(fields[0].0)
    } else {
        first_repeated(fields.skip(1), declared)
    }
}

/// The failure for the first declared key of `fields` that stands twice, if
/// there is one.
pub open spec fn repeated_field(
    fields: Seq<(Seq<char>, JsonView)>,
    entity: Entity,
    declared: Seq<Seq<char>>,
) -> Option<ParseErrorView> {
    match first_repeated(fields, declared) {
        Some(key) => Some(failure(ErrorKind::DuplicateField, entity, key)),
        None => None,
    }
}

/// The failure for which a strict record refuses the keys of `fields`: for
/// the first key that `allowed` does not hold, else for the first key that
/// stands twice.
pub open spec fn refused_key(
    fields: Seq<(Seq<char>, JsonView)>,
    entity: Entity,
    allowed: Seq<Seq<char>>,
) -> Option<ParseErrorView> {
    match unknown_field(fields, entity, allowed) {
        Some(e) => Some(e),
        None => repeated_field(fields, entity, allowed),
    }
}

/// Without its first entry, a list of entries has the same keys standing
/// again as before.
pub proof fn lemma_stands_again_skip(fields: Seq<(Seq<char>, JsonView)>, k: int)
    requires
        1 <= k < fields.len(),
    ensures
        stands_again(fields.skip(1), k - 1) == stands_again(fields, k),
{
    let rest = fields.skip(1);
    if stands_again(fields, k) {
        let m = choose|m: int| k < m < fields.len() && (#[trigger] fields[m]).0 == fields[k].0;
        assert(rest[m - 1] == fields[m]);
        assert(rest[k - 1] == fields[k]);
    }
    if stands_again(rest, k - 1) {
        let m = choose|m: int| k - 1 < m < rest.len() && (#[trigger] rest[m]).0 == rest[k - 1].0;
        assert(fields[m + 1] == rest[m]);
        assert(rest[k - 1] == fields[k]);
    }
}

/// `first_repeated` finds the entry at `i` when no earlier declared key
/// stands again and the key at `i` is declared and does.
pub proof fn lemma_first_repeated_at(
    fields: Seq<(Seq<char>, JsonView)>,
    declared: Seq<Seq<char>>,
    i: int,
)
    requires
        0 <= i < fields.len(),
        forall|k: int|
            0 <= k < i ==> !(declared.contains(fields[k].0) && #[trigger] stands_again(fields, k)),
        declared.contains(fields[i].0),
        stands_again(fields, i),
    ensures
        first_repeated(fields, declared) == Some(fields[i].0),
    decreases fields.len(),
{
    reveal(first_repeated);
    if i > 0 {
        let rest = fields.skip(1);
        assert(!(declared.contains(fields[0].0) && stands_again(fields, 0)));
        assert forall|k: int| 0 <= k < i - 1 implies !(declared.contains(rest[k].0)
            && #[trigger] stands_again(rest, k)) by {
            assert(rest[k] == fields[k + 1]);
            lemma_stands_again_skip(fields, k + 1);
            assert(!(declared.contains(fields[k + 1].0) && stands_again(fields, k + 1)));
        }
        assert(rest[i - 1] == fields[i]);
        lemma_stands_again_skip(fields, i);
        lemma_first_repeated_at(rest, declared, i - 1);
    }
}

/// `first_repeated` finds nothing exactly when no declared key stands again.
pub proof fn lemma_first_repeated_none(
    fields: Seq<(Seq<char>, JsonView)>,
    declared: Seq<Seq<char>>,
)
    ensures
        first_repeated(fields, declared) is None <==> forall|k: int|
            0 <= k < fields.len() ==> !(declared.contains(fields[k].0) && #[trigger] stands_again(
                fields,
                k,
            )),
    decreases fields.len(),
{
    reveal(first_repeated);
    if fields.len() > 0 {
        let rest = fields.skip(1);
        lemma_first_repeated_none(rest, declared);
        if !(declared.contains(fields[0].0) && stands_again(fields, 0)) {
            if first_repeated(fields, declared) is None {
                assert forall|k: int| 0 <= k < fields.len() implies !(declared.contains(
                    fields[k].0,
                ) && #[trigger] stands_again(fields, k)) by {
                    if k > 0 {
                        assert(rest[k - 1] == fields[k]);
                        lemma_stands_again_skip(fields, k);
                        assert(!(declared.contains(rest[k - 1].0) && stands_again(rest, k - 1)));
                    }
                }
            } else {
                let k = choose|k: int|
                    0 <= k < rest.len() && declared.contains(rest[k].0) && #[trigger] stands_again(
                        rest,
                        k,
                    );
                assert(rest[k] == fields[k + 1]);
                lemma_stands_again_skip(fields, k + 1);
            }
        }
    }
}

/// A declared key that stands twice makes `first_repeated` find something.
pub proof fn lemma_repeated_at(
    fields: Seq<(Seq<char>, JsonView)>,
    declared: Seq<Seq<char>>,
    i: int,
    j: int,
)
    requires
        0 <= i < j < fields.len(),
        fields[i].0 == fields[j].0,
        declared.contains(fields[i].0),
    ensures
        first_repeated(fields, declared) is Some,
        forall|entity: Entity| #[trigger] repeated_field(fields, entity, declared) is Some,
        forall|entity: Entity| #[trigger] refused_key(fields, entity, declared) is Some,
{
    lemma_first_repeated_none(fields, declared);
    assert(stands_again(fields, i));
}

/// A strict record refuses entries among which a key stands twice, be the
/// key allowed or not.
pub proof fn lemma_key_refused(
    fields: Seq<(Seq<char>, JsonView)>,
    allowed: Seq<Seq<char>>,
    i: int,
    j: int,
)
    requires
        0 <= i < j < fields.len(),
        fields[i].0 == fields[j].0,
    ensures
        forall|entity: Entity| #[trigger] refused_key(fields, entity, allowed) is Some,
{
    if allowed.contains(fields[i].0) {
        lemma_repeated_at(fields, allowed, i, j);
    } else {
        lemma_first_unknown_none(fields, allowed);
    }
}

/// `first_unknown` finds the entry at `i` when every earlier key is allowed
/// and the key at `i` is not.
pub proof fn lemma_first_unknown_at(
    fields: Seq<(Seq<char>, JsonView)>,
    allowed: Seq<Seq<char>>,
    i: int,
)
    requires
        0 <= i < fields.len(),
        forall|k: int| 0 <= k < i ==> allowed.contains(#[trigger] fields[k].0),
        !allowed.contains(fields[i].0),
    ensures
        first_unknown(fields, allowed) == Some(fields[i].0),
    decreases fields.len(),
{
    if i > 0 {
        let rest = fields.skip(1);
        assert forall|k: int| 0 <= k < i - 1 implies allowed.contains(#[trigger] rest[k].0) by {
            assert(rest[k] == fields[k + 1]);
        }
        lemma_first_unknown_at(rest, allowed, i - 1);
    }
}

/// `first_unknown` finds nothing exactly when every key is allowed.
pub proof fn lemma_first_unknown_none(fields: Seq<(Seq<char>, JsonView)>, allowed: Seq<Seq<char>>)
    ensures
        first_unknown(fields, allowed) is None <==> forall|k: int|
            0 <= k < fields.len() ==> allowed.contains(#[trigger] fields[k].0),
    decreases fields.len(),
{
    if fields.len() > 0 {
        let rest = fields.skip(1);
        lemma_first_unknown_none(rest, allowed);
        if allowed.contains(fields[0].0) {
            if first_unknown(fields, allowed) is None {
                assert forall|k: int| 0 <= k < fields.len() implies allowed.contains(
                    #[trigger] fields[k].0,
                ) by {
                    if k > 0 {
                        assert(rest[k - 1] == fields[k]);
                    }
                }
            } else {
                let k = choose|k: int| 0 <= k < rest.len()
                    && !allowed.contains(#[trigger] rest[k].0);
                assert(rest[k] == fields[k + 1]);
            }
        }
    }
}

/// A key that is not allowed makes `first_unknown` find something, also
/// among fewer allowed keys.
pub proof fn lemma_unknown_at(
    fields: Seq<(Seq<char>, JsonView)>,
    allowed: Seq<Seq<char>>,
    fewer: Seq<Seq<char>>,
    i: int,
)
    requires
        0 <= i < fields.len(),
        !allowed.contains(fields[i].0),
        forall|k: int| 0 <= k < fewer.len() ==> allowed.contains(#[trigger] fewer[k]),
    ensures
        first_unknown(fields, fewer) is Some,
        forall|entity: Entity| #[trigger] unknown_field(fields, entity, fewer) is Some,
        forall|entity: Entity| #[trigger] refused_key(fields, entity, fewer) is Some,
{
    lemma_first_unknown_none(fields, fewer);
    if fewer.contains(fields[i].0) {
        let k = choose|k: int| 0 <= k < fewer.len() && fewer[k] == fields[i].0;
        assert(allowed.contains(fewer[k]));
    }
}

/// A key that is present and not allowed makes `first_unknown` find something.
pub proof fn lemma_unknown_if_present(
    fields: Seq<(Seq<char>, JsonView)>,
    allowed: Seq<Seq<char>>,
    key: Seq<char>,
)
    requires
        lookup(fields, key) is Some,
        !allowed.contains(key),
    ensures
        first_unknown(fields, allowed) is Some,
        forall|entity: Entity| #[trigger] unknown_field(fields, entity, allowed) is Some,
        forall|entity: Entity| #[trigger] refused_key(fields, entity, allowed) is Some,
    decreases fields.len(),
{
    lemma_first_unknown_none(fields, allowed);
    if fields.last().0 == key {
        assert(fields[fields.len() - 1].0 == key);
    } else {
        lemma_unknown_if_present(fields.drop_last(), allowed, key);
        lemma_first_unknown_none(fields.drop_last(), allowed);
        let k = choose|k: int|
            0 <= k < fields.drop_last().len() && !allowed.contains(
                #[trigger] fields.drop_last()[k].0,
            );
        assert(fields[k] == fields.drop_last()[k]);
    }
}

/// Whether `list` holds `key`.
pub fn is_listed<const N: usize>(list: &[&str; N], key: &str) -> (r: bool)
    ensures
        r == names(*list).contains(key@),
{
    let mut i: usize = 0;
    while i < N
        invariant
            i <= N,
            forall|k: int| 0 <= k < i ==> names(*list)[k] != key@,
        decreases N - i,
    {
        if str_eq(list[i], key) {
            assert(names(*list)[i as int] == key@);
            return true;
        }
        i += 1;
    }
    false
}

/// The entry of `fields` that `lookup` selects for `key`.
pub fn find<'a>(fields: &'a Vec<(String, Json)>, key: &str) -> (r: Option<&'a Json>)
    ensures
        r.deep_view() == lookup(fields.deep_view(), key@),
{
    let ghost all = fields.deep_view();
    let mut i: usize = fields.len();
    assert(all.take(i as int) =~= all);
    while i > 0
        invariant
            i <= fields.len(),
            all == fields.deep_view(),
            lookup(all, key@) == lookup(all.take(i as int), key@),
        decreases i,
    {
        i -= 1;
        assert(all.take(i + 1).drop_last() =~= all.take(i as int));
        assert(all.take(i + 1).last() == all[i as int]);
        if str_eq(fields[i].0.as_str(), key) {
            return Some(&fields[i].1);
        }
    }
    None
}

/// Refuses the first key of `fields` that `allowed` does not hold.
pub fn check_known<const N: usize>(
    fields: &Vec<(String, Json)>,
    entity: Entity,
    allowed: &[&str; N],
) -> (r: Result<(), ParseError>)
    ensures
        match unknown_field(fields.deep_view(), entity, names(*allowed)) {
            Some(e) => r is Err && r->Err_0.deep_view() == e,
            None => r is Ok,
        },
{
    let ghost all = fields.deep_view();
    let mut i: usize = 0;
    while i < fields.len()
        invariant
            i <= fields.len(),
            all == fields.deep_view(),
            forall|k: int| 0 <= k < i ==> names(*allowed).contains(#[trigger] all[k].0),
        decreases fields.len() - i,
    {
        if !is_listed(allowed, fields[i].0.as_str()) {
            proof {
                assert(all[i as int].0 == fields[i as int].0@);
                lemma_first_unknown_at(all, names(*allowed), i as int);
            }
            return Err(ParseError::new(ErrorKind::UnknownField, entity, fields[i].0.as_str()));
        }
        i += 1;
    }
    proof {
        lemma_first_unknown_none(all, names(*allowed));
    }
    Ok(())
}

/// Refuses the first declared key of `fields` that stands twice.
pub fn check_repeated<const N: usize>(
    fields: &Vec<(String, Json)>,
    entity: Entity,
    declared: &[&str; N],
) -> (r: Result<(), ParseError>)
    ensures
        match repeated_field(fields.deep_view(), entity, names(*declared)) {
            Some(e) => r is Err && r->Err_0.deep_view() == e,
            None => r is Ok,
        },
{
    let ghost all = fields.deep_view();
    let mut i: usize = 0;
    while i < fields.len()
        invariant
            i <= fields.len(),
            all == fields.deep_view(),
            forall|k: int|
                0 <= k < i ==> !(names(*declared).contains(all[k].0) && #[trigger] stands_again(
                    all,
                    k,
                )),
        decreases fields.len() - i,
    {
        if is_listed(declared, fields[i].0.as_str()) {
            let mut j: usize = i + 1;
            while j < fields.len()
                invariant
                    i < j <= fields.len(),
                    all == fields.deep_view(),
                    names(*declared).contains(all[i as int].0),
                    forall|k: int|
                        0 <= k < i ==> !(names(*declared).contains(all[k].0)
                            && #[trigger] stands_again(all, k)),
                    forall|m: int| i < m < j ==> (#[trigger] all[m]).0 != all[i as int].0,
                decreases fields.len() - j,
            {
                if str_eq(fields[j].0.as_str(), fields[i].0.as_str()) {
                    proof {
                        assert(all[j as int].0 == all[i as int].0);
                        assert(all[i as int].0 == fields[i as int].0@);
                        assert(stands_again(all, i as int));
                        lemma_first_repeated_at(all, names(*declared), i as int);
                    }
                    return Err(
                        ParseError::new(ErrorKind::DuplicateField, entity, fields[i].0.as_str()),
                    );
                }
                j += 1;
            }
            assert(!stands_again(all, i as int));
        }
        i += 1;
    }
    proof {
        lemma_first_repeated_none(all, names(*declared));
    }
    Ok(())
}

/// Refuses the keys of `fields` as a strict record does.
pub fn check_keys<const N: usize>(
    fields: &Vec<(String, Json)>,
    entity: Entity,
    allowed: &[&str; N],
) -> (r: Result<(), ParseError>)
    ensures
        match refused_key(fields.deep_view(), entity, names(*allowed)) {
            Some(e) => r is Err && r->Err_0.deep_view() == e,
            None => r is Ok,
        },
{
    check_known(fields, entity, allowed)?;
    check_repeated(fields, entity, allowed)
}

/// A record type with a JSON form.
///
/// `decode` says which values are read from which JSON values, and which
/// failure is reported otherwise; `encode` says what is written. Writing a
/// value and reading the result gives the value back.
pub trait Wire: DeepView + Sized {
    /// What `from_json` returns, on models.
    spec fn decode(j: JsonView) -> Result<<Self as DeepView>::V, ParseErrorView>;

    /// What `to_json` returns, on models.
    spec fn encode(v: <Self as DeepView>::V) -> JsonView;

    /// Reads a value of this type from `j`.
    fn from_json(j: &Json) -> (r: Result<Self, ParseError>)
        ensures
            outcome(r) == Self::decode(j.deep_view()),
    ;

    /// Writes `self` as a JSON value.
    fn to_json(&self) -> (j: Json)
        ensures
            j.deep_view() == Self::encode(self.deep_view()),
    ;

    /// The keys that the type declares, where it refuses every other key;
    /// `None` where it ignores other keys, or is not read from an object.
    spec fn strict_keys() -> Option<Seq<Seq<char>>>;

    /// The keys that the type declares, where it is read from an object;
    /// `None` where it is not.
    spec fn declared_keys() -> Option<Seq<Seq<char>>>;

    /// Reading what was written gives the value back.
    proof fn lemma_round_trip(v: <Self as DeepView>::V)
        ensures
            Self::decode(Self::encode(v)) == Ok::<<Self as DeepView>::V, ParseErrorView>(v),
    ;

    /// A strict type refuses an object that holds a key which the type does
    /// not declare.
    proof fn lemma_refuses_unknown_key(fields: Seq<(Seq<char>, JsonView)>, i: int)
        requires
            0 <= i < fields.len(),
        ensures
            Self::strict_keys() matches Some(keys) ==> !keys.contains(fields[i].0)
                ==> Self::decode(JsonView::Object(fields)) is Err,
    ;

    /// A type refuses an object that holds one of the keys which the type
    /// declares twice.
    proof fn lemma_refuses_repeated_key(fields: Seq<(Seq<char>, JsonView)>, i: int, j: int)
        requires
            0 <= i < j < fields.len(),
            fields[i].0 == fields[j].0,
        ensures
            Self::declared_keys() matches Some(keys) ==> keys.contains(fields[i].0)
                ==> Self::decode(JsonView::Object(fields)) is Err,
    ;
}

/// The entries of an object, or the failure for a value that is none.
pub open spec fn object_of(j: JsonView, entity: Entity) -> Result<
    Seq<(Seq<char>, JsonView)>,
    ParseErrorView,
> {
    match j {
        JsonView::Object(fields) => Ok(fields),
        _ => Err(failure(ErrorKind::TypeMismatch, entity, Seq::empty())),
    }
}

/// The entries of an object all of whose keys are in `allowed` and none of
/// whose keys stands twice, or the failure: for a value that is no object,
/// for the first key not allowed, or for the first key that stands twice.
pub open spec fn strict_object_of(j: JsonView, entity: Entity, allowed: Seq<Seq<char>>) -> Result<
    Seq<(Seq<char>, JsonView)>,
    ParseErrorView,
> {
    match j {
        JsonView::Object(fields) => match refused_key(fields, entity, allowed) {
            Some(e) => Err(e),
            None => Ok(fields),
        },
        _ => Err(failure(ErrorKind::TypeMismatch, entity, Seq::empty())),
    }
}

/// The entries of an object in which none of the `declared` keys stands
/// twice, whatever other keys it holds, or the failure: for a value that is
/// no object, or for the first declared key that stands twice.
pub open spec fn lenient_object_of(j: JsonView, entity: Entity, declared: Seq<Seq<char>>) -> Result<
    Seq<(Seq<char>, JsonView)>,
    ParseErrorView,
> {
    match j {
        JsonView::Object(fields) => match repeated_field(fields, entity, declared) {
            Some(e) => Err(e),
            None => Ok(fields),
        },
        _ => Err(failure(ErrorKind::TypeMismatch, entity, Seq::empty())),
    }
}

/// The entries of the object `j`, as `object_of` says.
pub fn fields_of(j: &Json, entity: Entity) -> (r: Result<&Vec<(String, Json)>, ParseError>)
    ensures
        outcome(r) == object_of(j.deep_view(), entity),
{
    match j.as_object() {
        Some(fields) => Ok(fields),
        None => {
            proof {
                reveal_strlit("");
                assert(""@ =~= Seq::empty());
            }
            Err(ParseError::new(ErrorKind::TypeMismatch, entity, ""))
        },
    }
}

/// The entries of the object `j`, as `strict_object_of` says.
pub fn strict_fields_of<'a, const N: usize>(j: &'a Json, entity: Entity, allowed: &[&str; N]) -> (r:
    Result<&'a Vec<(String, Json)>, ParseError>)
    ensures
        outcome(r) == strict_object_of(j.deep_view(), entity, names(*allowed)),
{
    let fields = fields_of(j, entity)?;
    check_keys(fields, entity, allowed)?;
    Ok(fields)
}

/// The entries of the object `j`, as `lenient_object_of` says.
pub fn lenient_fields_of<'a, const N: usize>(
    j: &'a Json,
    entity: Entity,
    declared: &[&str; N],
) -> (r: Result<&'a Vec<(String, Json)>, ParseError>)
    ensures
        outcome(r) == lenient_object_of(j.deep_view(), entity, names(*declared)),
{
    let fields = fields_of(j, entity)?;
    check_repeated(fields, entity, declared)?;
    Ok(fields)
}

/// A required string field.
pub open spec fn text_at(
    fields: Seq<(Seq<char>, JsonView)>,
    key: Seq<char>,
    entity: Entity,
) -> Result<
    Seq<char>,
    ParseErrorView,
> {
    match lookup(fields, key) {
        None => Err(failure(ErrorKind::MissingField, entity, key)),
        Some(JsonView::Text(t)) => Ok(t),
        Some(_) => Err(failure(ErrorKind::TypeMismatch, entity, key)),
    }
}

/// An optional string field: absent and `null` both read as `None`.
pub open spec fn opt_text_at(
    fields: Seq<(Seq<char>, JsonView)>,
    key: Seq<char>,
    entity: Entity,
) -> Result<Option<Seq<char>>, ParseErrorView> {
    match lookup(fields, key) {
        None | Some(JsonView::Null) => Ok(None),
        Some(JsonView::Text(t)) => Ok(Some(t)),
        Some(_) => Err(failure(ErrorKind::TypeMismatch, entity, key)),
    }
}

/// A required boolean field.
pub open spec fn flag_at(
    fields: Seq<(Seq<char>, JsonView)>,
    key: Seq<char>,
    entity: Entity,
) -> Result<
    bool,
    ParseErrorView,
> {
    match lookup(fields, key) {
        None => Err(failure(ErrorKind::MissingField, entity, key)),
        Some(JsonView::Boolean(b)) => Ok(b),
        Some(_) => Err(failure(ErrorKind::TypeMismatch, entity, key)),
    }
}

/// A boolean field that reads as `default` when absent.
pub open spec fn flag_or_at(
    fields: Seq<(Seq<char>, JsonView)>,
    key: Seq<char>,
    entity: Entity,
    default: bool,
) -> Result<bool, ParseErrorView> {
    match lookup(fields, key) {
        None => Ok(default),
        Some(JsonView::Boolean(b)) => Ok(b),
        Some(_) => Err(failure(ErrorKind::TypeMismatch, entity, key)),
    }
}

/// An optional boolean field: absent and `null` both read as `None`.
pub open spec fn opt_flag_at(
    fields: Seq<(Seq<char>, JsonView)>,
    key: Seq<char>,
    entity: Entity,
) -> Result<Option<bool>, ParseErrorView> {
    match lookup(fields, key) {
        None | Some(JsonView::Null) => Ok(None),
        Some(JsonView::Boolean(b)) => Ok(Some(b)),
        Some(_) => Err(failure(ErrorKind::TypeMismatch, entity, key)),
    }
}

/// A required field that holds a number from 0 to `u32::MAX`.
pub open spec fn count_at(
    fields: Seq<(Seq<char>, JsonView)>,
    key: Seq<char>,
    entity: Entity,
) -> Result<
    u32,
    ParseErrorView,
> {
    match lookup(fields, key) {
        None => Err(failure(ErrorKind::MissingField, entity, key)),
        Some(JsonView::Integer(i)) if 0 <= i <= u32::MAX => Ok(i as u32),
        Some(_) => Err(failure(ErrorKind::TypeMismatch, entity, key)),
    }
}

/// An optional field that holds a number in the range of `i32`: absent and
/// `null` both read as `None`.
pub open spec fn opt_number_at(
    fields: Seq<(Seq<char>, JsonView)>,
    key: Seq<char>,
    entity: Entity,
) -> Result<Option<i32>, ParseErrorView> {
    match lookup(fields, key) {
        None | Some(JsonView::Null) => Ok(None),
        Some(JsonView::Integer(i)) if i32::MIN <= i <= i32::MAX => Ok(Some(i as i32)),
        Some(_) => Err(failure(ErrorKind::TypeMismatch, entity, key)),
    }
}

/// A required field that holds a record.
pub open spec fn item_at<T: Wire>(
    fields: Seq<(Seq<char>, JsonView)>,
    key: Seq<char>,
    entity: Entity,
) -> Result<T::V, ParseErrorView> {
    match lookup(fields, key) {
        None => Err(failure(ErrorKind::MissingField, entity, key)),
        Some(j) => T::decode(j),
    }
}

/// An optional field that holds a record: absent and `null` both read as `None`.
pub open spec fn opt_item_at<T: Wire>(fields: Seq<(Seq<char>, JsonView)>, key: Seq<char>) -> Result<
    Option<T::V>,
    ParseErrorView,
> {
    match lookup(fields, key) {
        None | Some(JsonView::Null) => Ok(None),
        Some(j) => match T::decode(j) {
            Ok(v) => Ok(Some(v)),
            Err(e) => Err(e),
        },
    }
}

/// A field that holds a record and reads as `default` when absent.
pub open spec fn item_or_at<T: Wire>(
    fields: Seq<(Seq<char>, JsonView)>,
    key: Seq<char>,
    default: T::V,
) -> Result<T::V, ParseErrorView> {
    match lookup(fields, key) {
        None => Ok(default),
        Some(j) => T::decode(j),
    }
}

/// The records read from `items`, in order, or the failure of the first
/// item that cannot be read.
pub open spec fn items_of<T: Wire>(items: Seq<JsonView>) -> Result<Seq<T::V>, ParseErrorView>
    decreases items.len(),
{
    if items.len() == 0 {
        Ok(Seq::empty())
    } else {
        match items_of::<T>(items.drop_last()) {
            Err(e) => Err(e),
            Ok(head) => match T::decode(items.last()) {
                Err(e) => Err(e),
                Ok(v) => Ok(head.push(v)),
            },
        }
    }
}

/// A required field that holds a list of records.
pub open spec fn list_at<T: Wire>(
    fields: Seq<(Seq<char>, JsonView)>,
    key: Seq<char>,
    entity: Entity,
) -> Result<Seq<T::V>, ParseErrorView> {
    match lookup(fields, key) {
        None => Err(failure(ErrorKind::MissingField, entity, key)),
        Some(JsonView::Array(items)) => items_of::<T>(items),
        Some(_) => Err(failure(ErrorKind::TypeMismatch, entity, key)),
    }
}

/// An optional field that holds a list of records: absent and `null` both
/// read as `None`.
pub open spec fn opt_list_at<T: Wire>(
    fields: Seq<(Seq<char>, JsonView)>,
    key: Seq<char>,
    entity: Entity,
) -> Result<Option<Seq<T::V>>, ParseErrorView> {
    match lookup(fields, key) {
        None | Some(JsonView::Null) => Ok(None),
        Some(JsonView::Array(items)) => match items_of::<T>(items) {
            Ok(vs) => Ok(Some(vs)),
            Err(e) => Err(e),
        },
        Some(_) => Err(failure(ErrorKind::TypeMismatch, entity, key)),
    }
}

/// Once a prefix of a list fails to read, the whole list fails the same way.
pub proof fn lemma_items_failure<T: Wire>(items: Seq<JsonView>, i: int)
    requires
        0 <= i < items.len(),
        items_of::<T>(items.take(i + 1)) is Err,
    ensures
        items_of::<T>(items) == items_of::<T>(items.take(i + 1)),
    decreases items.len(),
{
    if i + 1 < items.len() {
        assert(items.drop_last().take(i + 1) =~= items.take(i + 1));
        lemma_items_failure::<T>(items.drop_last(), i);
    } else {
        assert(items.take(i + 1) =~= items);
    }
}

/// Reads a required string field.
pub fn read_text(fields: &Vec<(String, Json)>, key: &str, entity: Entity) -> (r: Result<
    String,
    ParseError,
>)
    ensures
        outcome(r) == text_at(fields.deep_view(), key@, entity),
{
    match find(fields, key) {
        None => Err(ParseError::new(ErrorKind::MissingField, entity, key)),
        Some(j) => match j.as_text() {
            Some(t) => Ok(t.clone()),
            None => Err(ParseError::new(ErrorKind::TypeMismatch, entity, key)),
        },
    }
}

/// Reads an optional string field.
pub fn read_opt_text(fields: &Vec<(String, Json)>, key: &str, entity: Entity) -> (r: Result<
    Option<String>,
    ParseError,
>)
    ensures
        outcome(r) == opt_text_at(fields.deep_view(), key@, entity),
{
    match find(fields, key) {
        None => Ok(None),
        Some(j) => if j.is_null() {
            Ok(None)
        } else {
            match j.as_text() {
                Some(t) => Ok(Some(t.clone())),
                None => Err(ParseError::new(ErrorKind::TypeMismatch, entity, key)),
            }
        },
    }
}

/// Reads a required boolean field.
pub fn read_flag(fields: &Vec<(String, Json)>, key: &str, entity: Entity) -> (r: Result<
    bool,
    ParseError,
>)
    ensures
        outcome(r) == flag_at(fields.deep_view(), key@, entity),
{
    match find(fields, key) {
        None => Err(ParseError::new(ErrorKind::MissingField, entity, key)),
        Some(j) => match j.as_boolean() {
            Some(b) => Ok(b),
            None => Err(ParseError::new(ErrorKind::TypeMismatch, entity, key)),
        },
    }
}

/// Reads a boolean field that has a default.
pub fn read_flag_or(fields: &Vec<(String, Json)>, key: &str, entity: Entity, default: bool) -> (r:
    Result<bool, ParseError>)
    ensures
        outcome(r) == flag_or_at(fields.deep_view(), key@, entity, default),
{
    match find(fields, key) {
        None => Ok(default),
        Some(j) => match j.as_boolean() {
            Some(b) => Ok(b),
            None => Err(ParseError::new(ErrorKind::TypeMismatch, entity, key)),
        },
    }
}

/// Reads an optional boolean field.
pub fn read_opt_flag(fields: &Vec<(String, Json)>, key: &str, entity: Entity) -> (r: Result<
    Option<bool>,
    ParseError,
>)
    ensures
        outcome(r) == opt_flag_at(fields.deep_view(), key@, entity),
{
    match find(fields, key) {
        None => Ok(None),
        Some(j) => if j.is_null() {
            Ok(None)
        } else {
            match j.as_boolean() {
                Some(b) => Ok(Some(b)),
                None => Err(ParseError::new(ErrorKind::TypeMismatch, entity, key)),
            }
        },
    }
}

/// Reads a required field that holds a number from 0 to `u32::MAX`.
pub fn read_count(fields: &Vec<(String, Json)>, key: &str, entity: Entity) -> (r: Result<
    u32,
    ParseError,
>)
    ensures
        outcome(r) == count_at(fields.deep_view(), key@, entity),
{
    match find(fields, key) {
        None => Err(ParseError::new(ErrorKind::MissingField, entity, key)),
        Some(j) => match j.as_integer() {
            Some(i) => if 0 <= i && i <= 0xffff_ffff {
                Ok(i as u32)
            } else {
                Err(ParseError::new(ErrorKind::TypeMismatch, entity, key))
            },
            None => Err(ParseError::new(ErrorKind::TypeMismatch, entity, key)),
        },
    }
}

/// Reads an optional field that holds a number in the range of `i32`.
pub fn read_opt_number(fields: &Vec<(String, Json)>, key: &str, entity: Entity) -> (r: Result<
    Option<i32>,
    ParseError,
>)
    ensures
        outcome(r) == opt_number_at(fields.deep_view(), key@, entity),
{
    match find(fields, key) {
        None => Ok(None),
        Some(j) => if j.is_null() {
            Ok(None)
        } else {
            match j.as_integer() {
                Some(i) => if -0x8000_0000 <= i && i <= 0x7fff_ffff {
                    Ok(Some(i as i32))
                } else {
                    Err(ParseError::new(ErrorKind::TypeMismatch, entity, key))
                },
                None => Err(ParseError::new(ErrorKind::TypeMismatch, entity, key)),
            }
        },
    }
}

/// Reads a required field that holds a record.
pub fn read_item<T: Wire>(fields: &Vec<(String, Json)>, key: &str, entity: Entity) -> (r: Result<
    T,
    ParseError,
>)
    ensures
        outcome(r) == item_at::<T>(fields.deep_view(), key@, entity),
{
    match find(fields, key) {
        None => Err(ParseError::new(ErrorKind::MissingField, entity, key)),
        Some(j) => T::from_json(j),
    }
}

/// Reads an optional field that holds a record.
pub fn read_opt_item<T: Wire>(fields: &Vec<(String, Json)>, key: &str) -> (r: Result<
    Option<T>,
    ParseError,
>)
    ensures
        outcome(r) == opt_item_at::<T>(fields.deep_view(), key@),
{
    match find(fields, key) {
        None => Ok(None),
        Some(j) => if j.is_null() {
            Ok(None)
        } else {
            match T::from_json(j) {
                Ok(v) => Ok(Some(v)),
                Err(e) => Err(e),
            }
        },
    }
}

/// Reads a field that holds a record and has a default.
pub fn read_item_or<T: Wire>(fields: &Vec<(String, Json)>, key: &str, default: T) -> (r: Result<
    T,
    ParseError,
>)
    ensures
        outcome(r) == item_or_at::<T>(fields.deep_view(), key@, default.deep_view()),
{
    match find(fields, key) {
        None => Ok(default),
        Some(j) => T::from_json(j),
    }
}

/// Reads each of `items` as a record.
pub fn read_items<T: Wire>(items: &Vec<Json>) -> (r: Result<Vec<T>, ParseError>)
    ensures
        outcome(r) == items_of::<T>(items.deep_view()),
{
    let ghost all = items.deep_view();
    let mut out: Vec<T> = Vec::new();
    let mut i: usize = 0;
    assert(all.take(0) =~= Seq::empty());
    assert(out.deep_view() =~= Seq::empty());
    while i < items.len()
        invariant
            i <= items.len(),
            all == items.deep_view(),
            items_of::<T>(all.take(i as int)) == Ok::<Seq<T::V>, ParseErrorView>(out.deep_view()),
        decreases items.len() - i,
    {
        let ghost before = out.deep_view();
        assert(all.take(i + 1).drop_last() =~= all.take(i as int));
        assert(all.take(i + 1).last() == all[i as int]);
        match T::from_json(&items[i]) {
            Ok(v) => {
                out.push(v);
                assert(out.deep_view() =~= before.push(v.deep_view()));
            },
            Err(e) => {
                proof {
                    lemma_items_failure::<T>(all, i as int);
                }
                return Err(e);
            },
        }
        i += 1;
    }
    assert(all.take(i as int) =~= all);
    Ok(out)
}

/// Reads a required field that holds a list of records.
pub fn read_list<T: Wire>(fields: &Vec<(String, Json)>, key: &str, entity: Entity) -> (r: Result<
    Vec<T>,
    ParseError,
>)
    ensures
        outcome(r) == list_at::<T>(fields.deep_view(), key@, entity),
{
    match find(fields, key) {
        None => Err(ParseError::new(ErrorKind::MissingField, entity, key)),
        Some(j) => match j.as_array() {
            Some(items) => read_items::<T>(items),
            None => Err(ParseError::new(ErrorKind::TypeMismatch, entity, key)),
        },
    }
}

/// Reads an optional field that holds a list of records.
pub fn read_opt_list<T: Wire>(fields: &Vec<(String, Json)>, key: &str, entity: Entity) -> (r:
    Result<Option<Vec<T>>, ParseError>)
    ensures
        outcome(r) == opt_list_at::<T>(fields.deep_view(), key@, entity),
{
    match find(fields, key) {
        None => Ok(None),
        Some(j) => if j.is_null() {
            Ok(None)
        } else {
            match j.as_array() {
                Some(items) => match read_items::<T>(items) {
                    Ok(vs) => Ok(Some(vs)),
                    Err(e) => Err(e),
                },
                None => Err(ParseError::new(ErrorKind::TypeMismatch, entity, key)),
            }
        },
    }
}

/// The JSON form of an optional string that is left out when absent.
pub open spec fn opt_text_json(text: Option<Seq<char>>) -> Option<JsonView> {
    match text {
        Some(t) => Some(JsonView::Text(t)),
        None => None,
    }
}

/// The JSON form of an optional string that is written as `null` when absent.
pub open spec fn text_or_null(text: Option<Seq<char>>) -> JsonView {
    match text {
        Some(t) => JsonView::Text(t),
        None => JsonView::Null,
    }
}

/// The JSON form of a boolean that is left out when it has its default value.
pub open spec fn flag_unless(flag: bool, default: bool) -> Option<JsonView> {
    if flag == default {
        None
    } else {
        Some(JsonView::Boolean(flag))
    }
}

/// The JSON form of an optional boolean that is left out when absent.
pub open spec fn opt_flag_json(flag: Option<bool>) -> Option<JsonView> {
    match flag {
        Some(b) => Some(JsonView::Boolean(b)),
        None => None,
    }
}

/// The JSON form of a number from 0 to `u32::MAX`.
pub open spec fn count_json(n: u32) -> JsonView {
    JsonView::Integer(n as i64)
}

/// The JSON form of an optional number that is left out when absent.
pub open spec fn opt_number_json(n: Option<i32>) -> Option<JsonView> {
    match n {
        Some(i) => Some(JsonView::Integer(i as i64)),
        None => None,
    }
}

/// The JSON form of an optional record that is left out when absent.
pub open spec fn opt_item_json<T: Wire>(item: Option<T::V>) -> Option<JsonView> {
    match item {
        Some(v) => Some(T::encode(v)),
        None => None,
    }
}

/// The JSON form of a record that is left out when it is `default`.
pub open spec fn item_unless<T: Wire>(v: T::V, default: T::V) -> Option<JsonView> {
    if v == default {
        None
    } else {
        Some(T::encode(v))
    }
}

/// The array that holds the JSON form of each of `vs`.
pub open spec fn list_json<T: Wire>(vs: Seq<T::V>) -> JsonView {
    JsonView::Array(vs.map_values(|v: T::V| T::encode(v)))
}

/// The JSON form of an optional list that is left out when absent.
pub open spec fn opt_list_json<T: Wire>(list: Option<Seq<T::V>>) -> Option<JsonView> {
    match list {
        Some(vs) => Some(list_json::<T>(vs)),
        None => None,
    }
}

/// Reading a written list gives the list back.
pub proof fn lemma_items_round_trip<T: Wire>(vs: Seq<T::V>)
    ensures
        items_of::<T>(vs.map_values(|v: T::V| T::encode(v))) == Ok::<Seq<T::V>, ParseErrorView>(vs),
    decreases vs.len(),
{
    let js = vs.map_values(|v: T::V| T::encode(v));
    if vs.len() > 0 {
        lemma_items_round_trip::<T>(vs.drop_last());
        assert(js.drop_last() =~= vs.drop_last().map_values(|v: T::V| T::encode(v)));
        T::lemma_round_trip(vs.last());
        assert(vs.drop_last().push(vs.last()) =~= vs);
    } else {
        assert(vs =~= Seq::empty());
    }
}

/// Writes an optional string that is left out when absent.
pub fn write_opt_text(text: &Option<String>) -> (r: Option<Json>)
    ensures
        r.deep_view() == opt_text_json(text.deep_view()),
{
    match text {
        Some(t) => Some(Json::Text(t.clone())),
        None => None,
    }
}

/// Writes an optional string that is written as `null` when absent.
pub fn write_text_or_null(text: &Option<String>) -> (r: Json)
    ensures
        r.deep_view() == text_or_null(text.deep_view()),
{
    match text {
        Some(t) => Json::Text(t.clone()),
        None => Json::Null,
    }
}

/// Writes a boolean that is left out when it has its default value.
pub fn write_flag_unless(flag: bool, default: bool) -> (r: Option<Json>)
    ensures
        r.deep_view() == flag_unless(flag, default),
{
    if flag == default {
        None
    } else {
        Some(Json::Boolean(flag))
    }
}

/// Writes an optional boolean that is left out when absent.
pub fn write_opt_flag(flag: Option<bool>) -> (r: Option<Json>)
    ensures
        r.deep_view() == opt_flag_json(flag),
{
    match flag {
        Some(b) => Some(Json::Boolean(b)),
        None => None,
    }
}

/// Writes a number from 0 to `u32::MAX`.
pub fn write_count(n: u32) -> (r: Json)
    ensures
        r.deep_view() == count_json(n),
{
    Json::Integer(n as i64)
}

/// Writes an optional number that is left out when absent.
pub fn write_opt_number(n: Option<i32>) -> (r: Option<Json>)
    ensures
        r.deep_view() == opt_number_json(n),
{
    match n {
        Some(i) => Some(Json::Integer(i as i64)),
        None => None,
    }
}

/// Writes an optional record that is left out when absent.
pub fn write_opt_item<T: Wire>(item: &Option<T>) -> (r: Option<Json>)
    ensures
        r.deep_view() == opt_item_json::<T>(item.deep_view()),
{
    match item {
        Some(v) => Some(v.to_json()),
        None => None,
    }
}

/// Writes a record unless `skip` holds.
pub fn write_unless<T: Wire>(skip: bool, item: &T) -> (r: Option<Json>)
    ensures
        r.deep_view() == if skip {
            None
        } else {
            Some(T::encode(item.deep_view()))
        },
{
    if skip {
        None
    } else {
        Some(item.to_json())
    }
}

/// Writes each of `vs` as a JSON value, in order.
pub fn write_list<T: Wire>(vs: &Vec<T>) -> (j: Json)
    ensures
        j.deep_view() == list_json::<T>(vs.deep_view()),
{
    let mut out: Vec<Json> = Vec::new();
    let mut i: usize = 0;
    while i < vs.len()
        invariant
            i <= vs.len(),
            out.len() == i,
            forall|k: int|
                0 <= k < i ==> (#[trigger] out[k]).deep_view() == T::encode(vs[k].deep_view()),
        decreases vs.len() - i,
    {
        out.push(vs[i].to_json());
        i += 1;
    }
    assert(out.deep_view() =~= vs.deep_view().map_values(|v: T::V| T::encode(v)));
    Json::array(out)
}

/// Writes an optional list that is left out when absent.
pub fn write_opt_list<T: Wire>(list: &Option<Vec<T>>) -> (r: Option<Json>)
    ensures
        r.deep_view() == opt_list_json::<T>(list.deep_view()),
{
    match list {
        Some(vs) => Some(write_list::<T>(vs)),
        None => None,
    }
}

/// The entries that a table writes: those whose value is present, in order.
#[verifier::opaque]
pub open spec fn present(table: Seq<(Seq<char>, Option<JsonView>)>) -> Seq<(Seq<char>, JsonView)>
    decreases table.len(),
{
    if table.len() == 0 {
        Seq::empty()
    } else {
        let head = present(table.drop_last());
        match table.last().1 {
            Some(j) => head.push((table.last().0, j)),
            None => head,
        }
    }
}

/// Whether no key stands twice in `table`.
pub open spec fn keys_distinct(table: Seq<(Seq<char>, Option<JsonView>)>) -> bool {
    forall|i: int, j: int|
        0 <= i < j < table.len() ==> (#[trigger] table[i]).0 != (#[trigger] table[j]).0
}

/// A key that the table does not hold is not written.
pub proof fn lemma_lookup_absent(table: Seq<(Seq<char>, Option<JsonView>)>, key: Seq<char>)
    requires
        forall|i: int| 0 <= i < table.len() ==> (#[trigger] table[i]).0 != key,
    ensures
        lookup(present(table), key) is None,
    decreases table.len(),
{
    reveal(present);
    if table.len() > 0 {
        let head = table.drop_last();
        assert forall|i: int| 0 <= i < head.len() implies (#[trigger] head[i]).0 != key by {
            assert(head[i] == table[i]);
        }
        lemma_lookup_absent(head, key);
        assert(table.last() == table[table.len() - 1]);
        if table.last().1 is Some {
            let e = (table.last().0, table.last().1->0);
            assert(present(head).push(e).drop_last() =~= present(head));
        }
    }
}

/// With distinct keys, each key of the table is written with its own value,
/// or not at all where the table leaves the value out.
pub proof fn lemma_lookup_present(table: Seq<(Seq<char>, Option<JsonView>)>, i: int)
    requires
        keys_distinct(table),
        0 <= i < table.len(),
    ensures
        lookup(present(table), table[i].0) == table[i].1,
    decreases table.len(),
{
    reveal(present);
    let head = table.drop_last();
    let last = table.last();
    assert(last == table[table.len() - 1]);
    assert forall|a: int, b: int| 0 <= a < b < head.len() implies (#[trigger] head[a]).0 != (
    #[trigger] head[b]).0 by {
        assert(head[a] == table[a]);
        assert(head[b] == table[b]);
    }
    if last.1 is Some {
        let e = (last.0, last.1->0);
        assert(present(head).push(e).drop_last() =~= present(head));
    }
    if i == table.len() - 1 {
        if last.1 is None {
            assert forall|k: int| 0 <= k < head.len() implies (#[trigger] head[k]).0 != last.0 by {
                assert(head[k] == table[k]);
            }
            lemma_lookup_absent(head, last.0);
        }
    } else {
        assert(head[i] == table[i]);
        lemma_lookup_present(head, i);
    }
}

/// A key is not found exactly when no entry holds it.
pub proof fn lemma_lookup_none(fields: Seq<(Seq<char>, JsonView)>, key: Seq<char>)
    ensures
        lookup(fields, key) is None <==> forall|m: int|
            0 <= m < fields.len() ==> (#[trigger] fields[m]).0 != key,
    decreases fields.len(),
{
    if fields.len() > 0 {
        let head = fields.drop_last();
        lemma_lookup_none(head, key);
        assert(fields.last() == fields[fields.len() - 1]);
        if fields.last().0 != key {
            if lookup(fields, key) is None {
                assert forall|m: int| 0 <= m < fields.len() implies (#[trigger] fields[m]).0
                    != key by {
                    if m < head.len() {
                        assert(head[m] == fields[m]);
                    }
                }
            } else {
                let m = choose|m: int| 0 <= m < head.len() && (#[trigger] head[m]).0 == key;
                assert(head[m] == fields[m]);
            }
        }
    }
}

/// With distinct keys in the table, no key is written twice.
pub proof fn lemma_present_distinct(
    table: Seq<(Seq<char>, Option<JsonView>)>,
    declared: Seq<Seq<char>>,
)
    requires
        keys_distinct(table),
    ensures
        forall|a: int, b: int|
            0 <= a < b < present(table).len() ==> (#[trigger] present(table)[a]).0 != (
            #[trigger] present(table)[b]).0,
        first_repeated(present(table), declared) is None,
        forall|entity: Entity| #[trigger] repeated_field(present(table), entity, declared) is None,
    decreases table.len(),
{
    reveal(present);
    let written = present(table);
    if table.len() > 0 {
        let head = table.drop_last();
        let last = table.last();
        assert(last == table[table.len() - 1]);
        assert forall|a: int, b: int| 0 <= a < b < head.len() implies (#[trigger] head[a]).0 != (
        #[trigger] head[b]).0 by {
            assert(head[a] == table[a]);
            assert(head[b] == table[b]);
        }
        lemma_present_distinct(head, declared);
        assert forall|k: int| 0 <= k < head.len() implies (#[trigger] head[k]).0 != last.0 by {
            assert(head[k] == table[k]);
        }
        lemma_lookup_absent(head, last.0);
        lemma_lookup_none(present(head), last.0);
        assert forall|a: int, b: int| 0 <= a < b < written.len() implies (#[trigger] written[a]).0
            != (#[trigger] written[b]).0 by {
            if b < present(head).len() {
                assert(written[a] == present(head)[a]);
                assert(written[b] == present(head)[b]);
            } else {
                assert(written[a] == present(head)[a]);
            }
        }
    }
    lemma_first_repeated_none(written, declared);
    assert forall|k: int| 0 <= k < written.len() implies !(declared.contains(written[k].0)
        && #[trigger] stands_again(written, k)) by {
        if stands_again(written, k) {
            let m = choose|m: int| k < m < written.len()
                && (#[trigger] written[m]).0 == written[k].0;
            assert(written[k].0 != written[m].0);
        }
    }
}

/// Every key that is written is a key of the table, and with distinct keys
/// in the table a strict record that declares them refuses none.
pub proof fn lemma_present_known(table: Seq<(Seq<char>, Option<JsonView>)>, allowed: Seq<Seq<char>>)
    requires
        keys_distinct(table),
        forall|i: int| 0 <= i < table.len() ==> allowed.contains((#[trigger] table[i]).0),
    ensures
        first_unknown(present(table), allowed) is None,
        forall|entity: Entity| #[trigger] unknown_field(present(table), entity, allowed) is None,
        forall|entity: Entity| #[trigger] refused_key(present(table), entity, allowed) is None,
{
    lemma_present_keys(table, allowed);
    lemma_first_unknown_none(present(table), allowed);
    lemma_present_distinct(table, allowed);
}

proof fn lemma_present_keys(table: Seq<(Seq<char>, Option<JsonView>)>, allowed: Seq<Seq<char>>)
    requires
        forall|i: int| 0 <= i < table.len() ==> allowed.contains((#[trigger] table[i]).0),
    ensures
        forall|k: int|
            0 <= k < present(table).len() ==> allowed.contains(#[trigger] present(table)[k].0),
    decreases table.len(),
{
    reveal(present);
    if table.len() > 0 {
        let head = table.drop_last();
        assert forall|i: int| 0 <= i < head.len() implies allowed.contains(
            (#[trigger] head[i]).0,
        ) by {
            assert(head[i] == table[i]);
        }
        lemma_present_keys(head, allowed);
        assert(table.last() == table[table.len() - 1]);
        assert forall|k: int| 0 <= k < present(table).len() implies allowed.contains(
            #[trigger] present(table)[k].0,
        ) by {
            if k < present(head).len() {
                assert(present(table)[k] == present(head)[k]);
            }
        }
    }
}

/// Collects the entries of one object, in the order in which they are put.
pub struct ObjectWriter {
    fields: Vec<(String, Json)>,
    table: Ghost<Seq<(Seq<char>, Option<JsonView>)>>,
}

impl ObjectWriter {
    #[verifier::type_invariant]
    spec fn holds_present_entries(self) -> bool {
        self.fields.deep_view() == present(self.table@)
    }

    /// The table put so far: each key with its value, or with `None` where
    /// the entry was left out.
    pub closed spec fn table(self) -> Seq<(Seq<char>, Option<JsonView>)> {
        self.table@
    }

    /// A writer that holds no entry.
    pub fn new() -> (w: ObjectWriter)
        ensures
            w.table() == Seq::<(Seq<char>, Option<JsonView>)>::empty(),
    {
        let fields: Vec<(String, Json)> = Vec::new();
        assert(fields.deep_view() =~= Seq::empty());
        proof {
            reveal(present);
        }
        ObjectWriter { fields, table: Ghost(Seq::empty()) }
    }

    /// Adds the entry `key: value`.
    pub fn put(self, key: &str, value: Json) -> (w: ObjectWriter)
        ensures
            w.table() == self.table().push((key@, Some(value.deep_view()))),
    {
        self.put_opt(key, Some(value))
    }

    /// Adds the entry `key: value` where `value` is present; else nothing.
    pub fn put_opt(self, key: &str, value: Option<Json>) -> (w: ObjectWriter)
        ensures
            w.table() == self.table().push((key@, value.deep_view())),
    {
        proof {
            use_type_invariant(&self);
            reveal(present);
        }
        let ghost next = self.table@.push((key@, value.deep_view()));
        assert(next.drop_last() =~= self.table@);
        let ObjectWriter { mut fields, table } = self;
        match value {
            Some(j) => {
                let ghost before = fields.deep_view();
                fields.push((key.to_owned(), j));
                assert(fields.deep_view() =~= before.push((key@, j.deep_view())));
            },
            None => {},
        }
        ObjectWriter { fields, table: Ghost(next) }
    }

    /// The object that holds the entries put.
    pub fn finish(self) -> (j: Json)
        ensures
            j.deep_view() == JsonView::Object(present(self.table())),
    {
        proof {
            use_type_invariant(&self);
        }
        Json::object(self.fields)
    }
}

} // verus!
