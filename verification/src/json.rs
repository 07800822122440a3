//! A model of the JSON documents the engine reads: event bodies and
//! account-data preference documents.  Only what the retention rules look at
//! is distinguished; numbers that do not fit an unsigned 64-bit value are
//! kept opaque.

use vstd::prelude::*;
use vstd::string::StrSliceExecFns;
use crate::strutil::{str_eq, str_starts_with};
use crate::records::UserRetentionPreference;

verus! {

broadcast use vstd::std_specs::vec::group_vec_axioms;

/// A JSON value, as far as retention reads it.
pub enum JsonValue {
    Null,
    Bool(bool),
    /// A number that fits an unsigned 64-bit value.
    UInt(u64),
    /// Any other number.
    OtherNum,
    Text(String),
    Arr(Vec<JsonValue>),
    Obj(Vec<(String, JsonValue)>),
}

/// Whether a string names media: it starts with the scheme.
pub open spec fn mxc_prefixed(s: Seq<char>) -> bool {
    s.len() >= 6 && s.subrange(0, 6) == "mxc://"@
}

/// Every media identifier mentioned anywhere within a value.
pub open spec fn mxcs_of(v: JsonValue) -> Set<Seq<char>>
    decreases v,
{
    match v {
        JsonValue::Text(s) => if mxc_prefixed(s@) {
            Set::empty().insert(s@)
        } else {
            Set::empty()
        },
        JsonValue::Arr(items) => mxcs_of_list(items@),
        JsonValue::Obj(fields) => mxcs_of_fields(fields@),
        _ => Set::empty(),
    }
}

/// Every media identifier mentioned within a list of values.
pub open spec fn mxcs_of_list(items: Seq<JsonValue>) -> Set<Seq<char>>
    decreases items,
{
    if items.len() == 0 {
        Set::empty()
    } else {
        mxcs_of_list(items.drop_last()).union(mxcs_of(items.last()))
    }
}

/// Every media identifier mentioned within an object's field values.
pub open spec fn mxcs_of_fields(fields: Seq<(String, JsonValue)>) -> Set<Seq<char>>
    decreases fields,
{
    if fields.len() == 0 {
        Set::empty()
    } else {
        mxcs_of_fields(fields.drop_last()).union(mxcs_of(fields.last().1))
    }
}

/// The characters of a list of strings, as a set.
pub open spec fn str_set(s: Seq<String>) -> Set<Seq<char>> {
    s.map_values(|x: String| x@).to_set()
}

/// Whether the list holds the given characters.
fn contains_string(out: &Vec<String>, s: &str) -> (r: bool)
    ensures
        r == str_set(out@).contains(s@),
{
    let n = out.len();
    let mut i: usize = 0;
    while i < n
        invariant
            n == out@.len(),
            0 <= i <= n,
            forall|j: int| 0 <= j < i ==> (#[trigger] out@[j])@ != s@,
        decreases n - i,
    {
        if str_eq(out[i].as_str(), s) {
            assert(str_set(out@).contains(s@)) by {
                assert(out@.map_values(|x: String| x@)[i as int] == s@);
            }
            return true;
        }
        i += 1;
    }
    assert(!str_set(out@).contains(s@)) by {
        if str_set(out@).contains(s@) {
            let m = out@.map_values(|x: String| x@);
            let j = choose|j: int| 0 <= j < m.len() && m[j] == s@;
            assert(out@[j]@ == s@);
        }
    }
    false
}

/// Gathers into `out`, without duplicates, every media identifier mentioned
/// within the value.
pub fn collect_mxcs(v: &JsonValue, out: &mut Vec<String>)
    requires
        forall|j: int, l: int| 0 <= j < l < old(out)@.len() ==> old(out)@[j]@ != old(out)@[l]@,
    ensures
        forall|j: int, l: int|
            0 <= j < l < final(out)@.len() ==> final(out)@[j]@ != final(out)@[l]@,
        str_set(final(out)@) == str_set(old(out)@).union(mxcs_of(*v)),
    decreases *v,
{
    match v {
        JsonValue::Text(s) => {
            proof {
                reveal_strlit("mxc://");
            }
            if str_starts_with(s.as_str(), "mxc://") {
                if !contains_string(out, s.as_str()) {
                    let ghost before = out@;
                    out.push(s.clone());
                    proof {
                        assert(forall|j: int|
                            0 <= j < out@.len() - 1 ==> out@[j] == before[j]);
                        assert forall|j: int|
                            0 <= j < out@.len() - 1 implies out@[j]@ != s@ by {
                            if out@[j]@ == s@ {
                                assert(before.map_values(|x: String| x@)[j] == s@);
                            }
                        }
                        assert(str_set(out@) =~= str_set(before).insert(s@)) by {
                            assert(out@.map_values(|x: String| x@) =~= before.map_values(
                                |x: String| x@,
                            ).push(s@));
                            assert forall|e: Seq<char>| #[trigger]
                                str_set(out@).contains(e) implies str_set(before).insert(
                                s@,
                            ).contains(e) by {
                                let m = out@.map_values(|x: String| x@);
                                let j = choose|j: int| 0 <= j < m.len() && m[j] == e;
                                if j < m.len() - 1 {
                                    assert(before.map_values(|x: String| x@)[j] == e);
                                }
                            }
                            assert forall|e: Seq<char>| #[trigger]
                                str_set(before).insert(s@).contains(e) implies str_set(
                                out@,
                            ).contains(e) by {
                                let mb = before.map_values(|x: String| x@);
                                let m = out@.map_values(|x: String| x@);
                                if e == s@ {
                                    assert(m[m.len() - 1] == e);
                                } else {
                                    let j = choose|j: int| 0 <= j < mb.len() && mb[j] == e;
                                    assert(m[j] == e);
                                }
                            }
                        }
                        assert(str_set(out@) =~= str_set(before).union(mxcs_of(*v)));
                    }
                } else {
                    proof {
                        assert(str_set(out@) =~= str_set(out@).union(mxcs_of(*v)));
                    }
                }
            } else {
                proof {
                    assert(str_set(out@) =~= str_set(out@).union(mxcs_of(*v)));
                }
            }
        },
        JsonValue::Arr(items) => {
            let ghost base = out@;
            let n = items.len();
            let mut i: usize = 0;
            while i < n
                invariant
                    *v == (JsonValue::Arr(*items)),
                    n == items@.len(),
                    0 <= i <= n,
                    forall|j: int, l: int|
                        0 <= j < l < out@.len() ==> out@[j]@ != out@[l]@,
                    str_set(out@) == str_set(base).union(mxcs_of_list(items@.take(i as int))),
                decreases n - i,
            {
                proof {
                    assert(items@.take(i + 1).drop_last() =~= items@.take(i as int));
                    assert(items@.take(i + 1).last() == items@[i as int]);
                }
                proof {
                    assert(decreases_to!(*v => (*v)->Arr_0));
                    assert((*v)->Arr_0 == *items);
                    assert(decreases_to!(*items => items@));
                    assert(decreases_to!(items@ => items@[i as int]));
                }
                collect_mxcs(&items[i], out);
                proof {
                    assert(str_set(out@) =~= str_set(base).union(
                        mxcs_of_list(items@.take(i + 1)),
                    ));
                }
                i += 1;
            }
            proof {
                assert(items@.take(n as int) =~= items@);
            }
        },
        JsonValue::Obj(fields) => {
            let ghost base = out@;
            let n = fields.len();
            let mut i: usize = 0;
            while i < n
                invariant
                    *v == (JsonValue::Obj(*fields)),
                    n == fields@.len(),
                    0 <= i <= n,
                    forall|j: int, l: int|
                        0 <= j < l < out@.len() ==> out@[j]@ != out@[l]@,
                    str_set(out@) == str_set(base).union(
                        mxcs_of_fields(fields@.take(i as int)),
                    ),
                decreases n - i,
            {
                proof {
                    assert(fields@.take(i + 1).drop_last() =~= fields@.take(i as int));
                    assert(fields@.take(i + 1).last() == fields@[i as int]);
                }
                proof {
                    assert(decreases_to!(*v => (*v)->Obj_0));
                    assert((*v)->Obj_0 == *fields);
                    assert(decreases_to!(*fields => fields@));
                    assert(decreases_to!(fields@ => fields@[i as int]));
                    assert(decreases_to!(fields@[i as int] => fields@[i as int].1));
                }
                collect_mxcs(&fields[i].1, out);
                proof {
                    assert(str_set(out@) =~= str_set(base).union(
                        mxcs_of_fields(fields@.take(i + 1)),
                    ));
                }
                i += 1;
            }
            proof {
                assert(fields@.take(n as int) =~= fields@);
            }
        },
        _ => {
            proof {
                assert(str_set(out@) =~= str_set(out@).union(mxcs_of(*v)));
            }
        },
    }
}

/// The value of the first field with the given name, on an object.
pub open spec fn field_of(v: JsonValue, name: Seq<char>) -> Option<JsonValue> {
    match v {
        JsonValue::Obj(fields) => field_of_list(fields@, name),
        _ => None,
    }
}

/// The value of the first field with the given name.
pub open spec fn field_of_list(fields: Seq<(String, JsonValue)>, name: Seq<char>) -> Option<
    JsonValue,
>
    decreases fields.len(),
{
    if fields.len() == 0 {
        None
    } else if fields.first().0@ == name {
        Some(fields.first().1)
    } else {
        field_of_list(fields.drop_first(), name)
    }
}

/// Looks a field up on an object; `None` on any other value or when the
/// field is absent.
pub fn get_field<'a>(v: &'a JsonValue, name: &str) -> (r: Option<&'a JsonValue>)
    ensures
        match r {
            Some(f) => field_of(*v, name@) == Some(*f),
            None => field_of(*v, name@) is None,
        },
{
    match v {
        JsonValue::Obj(fields) => {
            let n = fields.len();
            let mut i: usize = 0;
            proof {
                assert(fields@.subrange(0, n as int) =~= fields@);
            }
            while i < n
                invariant
                    *v == (JsonValue::Obj(*fields)),
                    n == fields@.len(),
                    0 <= i <= n,
                    field_of_list(fields@, name@) == field_of_list(
                        fields@.subrange(i as int, n as int),
                        name@,
                    ),
                decreases n - i,
            {
                proof {
                    let rest = fields@.subrange(i as int, n as int);
                    assert(rest.first() == fields@[i as int]);
                    assert(rest.drop_first() =~= fields@.subrange(i + 1, n as int));
                }
                if str_eq(fields[i].0.as_str(), name) {
                    proof {
                        let rest = fields@.subrange(i as int, n as int);
                        assert(field_of_list(rest, name@) == Some(fields@[i as int].1));
                        assert(field_of(*v, name@) == field_of_list(fields@, name@));
                    }
                    return Some(&fields[i].1);
                }
                i += 1;
            }
            proof {
                assert(fields@.subrange(n as int, n as int).len() == 0);
            }
            None
        },
        _ => None,
    }
}

/// The digit characters of a decimal number, valued.
pub open spec fn digits_val(s: Seq<char>) -> int
    decreases s.len(),
{
    if s.len() == 0 {
        0
    } else {
        digits_val(s.drop_last()) * 10 + (s.last() as int - '0' as int)
    }
}

/// Whether every character is a decimal digit.
pub open spec fn all_digits(s: Seq<char>) -> bool {
    forall|i: int| 0 <= i < s.len() ==> '0' <= #[trigger] s[i] <= '9'
}

/// The number a string denotes to a 64-bit unsigned parse: an optional
/// leading plus sign, then at least one digit, valuing at most the type's
/// maximum.
pub open spec fn parsed_u64(s: Seq<char>) -> Option<u64> {
    let digits = if s.len() > 0 && s[0] == '+' {
        s.drop_first()
    } else {
        s
    };
    if digits.len() > 0 && all_digits(digits) && digits_val(digits) <= u64::MAX {
        Some(digits_val(digits) as u64)
    } else {
        None
    }
}

proof fn lemma_digits_val_bounds(s: Seq<char>)
    requires
        all_digits(s),
    ensures
        digits_val(s) >= 0,
    decreases s.len(),
{
    if s.len() > 0 {
        assert(all_digits(s.drop_last())) by {
            assert(forall|i: int| 0 <= i < s.len() - 1 ==> s.drop_last()[i] == s[i]);
        }
        lemma_digits_val_bounds(s.drop_last());
    }
}

/// Parses a decimal unsigned 64-bit number as the standard library would:
/// an optional plus sign, then digits, rejecting overflow.
pub fn parse_u64(s: &str) -> (r: Option<u64>)
    ensures
        r == parsed_u64(s@),
{
    let n = s.unicode_len();
    let start: usize = if n > 0 && s.get_char(0) == '+' {
        1
    } else {
        0
    };
    let ghost digits = if s@.len() > 0 && s@[0] == '+' {
        s@.drop_first()
    } else {
        s@
    };
    proof {
        assert(digits.len() == n - start);
        assert(forall|j: int| 0 <= j < digits.len() ==> digits[j] == s@[j + start]);
    }
    if start >= n {
        return None;
    }
    let mut acc: u64 = 0;
    let mut i: usize = start;
    while i < n
        invariant
            start <= i <= n,
            n == s@.len(),
            start == if s@.len() > 0 && s@[0] == '+' {
                1int
            } else {
                0int
            },
            digits == (if s@.len() > 0 && s@[0] == '+' {
                s@.drop_first()
            } else {
                s@
            }),
            digits.len() == n - start,
            forall|j: int| 0 <= j < digits.len() ==> digits[j] == s@[j + start],
            all_digits(digits.take(i - start)),
            acc == digits_val(digits.take(i - start)),
        decreases n - i,
    {
        let c = s.get_char(i);
        if c < '0' || c > '9' {
            assert(!all_digits(digits)) by {
                assert(digits[i - start] == c);
            }
            return None;
        }
        let d: u64 = (c as u32 as u64) - 48;
        proof {
            assert('0' as u32 == 48 && '9' as u32 == 57);
            assert(digits.take(i - start + 1).drop_last() =~= digits.take(i - start));
            assert(digits.take(i - start + 1).last() == digits[i - start]);
            assert(all_digits(digits.take(i - start + 1)));
            lemma_digits_val_bounds(digits.take(i - start));
        }
        if acc > (u64::MAX - d) / 10 {
            assert(digits_val(digits.take(i - start + 1)) > u64::MAX) by (nonlinear_arith)
                requires
                    digits_val(digits.take(i - start + 1)) == acc * 10 + d,
                    acc > (u64::MAX - d) / 10,
                    0 <= d <= 9,
            ;
            assert(parsed_u64(s@) is None) by {
                if digits.len() > 0 && all_digits(digits) && digits_val(digits) <= u64::MAX {
                    lemma_digits_prefix_monotone(digits, i - start + 1);
                }
            }
            return None;
        }
        proof {
            assert(acc * 10 + d <= u64::MAX) by (nonlinear_arith)
                requires
                    acc <= (u64::MAX - d) / 10,
                    0 <= d <= 9,
                    acc >= 0,
            ;
        }
        acc = acc * 10 + d;
        i += 1;
    }
    proof {
        assert(digits.take(n - start) =~= digits);
    }
    Some(acc)
}

proof fn lemma_digits_prefix_monotone(s: Seq<char>, k: int)
    requires
        all_digits(s),
        0 <= k <= s.len(),
    ensures
        digits_val(s) >= digits_val(s.take(k)),
    decreases s.len() - k,
{
    if k < s.len() {
        assert(s.take(k + 1).drop_last() =~= s.take(k));
        assert(s.take(k + 1).last() == s[k]);
        assert(all_digits(s.take(k)));
        lemma_digits_val_bounds(s.take(k));
        assert(digits_val(s.take(k + 1)) == digits_val(s.take(k)) * 10 + (s[k] as int
            - '0' as int));
        assert(digits_val(s.take(k + 1)) >= digits_val(s.take(k))) by (nonlinear_arith)
            requires
                digits_val(s.take(k + 1)) == digits_val(s.take(k)) * 10 + (s[k] as int
                    - '0' as int),
                digits_val(s.take(k)) >= 0,
                s[k] as int - '0' as int >= 0,
        ;
        lemma_digits_prefix_monotone(s, k + 1);
        assert(s.take(s.len() as int) =~= s);
    } else {
        assert(s.take(k) =~= s);
    }
}

/// The unsigned 64-bit value a canonical-JSON field denotes: a number that
/// fits, or a string of decimal digits.
pub open spec fn json_u64(v: JsonValue) -> Option<u64> {
    match v {
        JsonValue::UInt(n) => Some(n),
        JsonValue::Text(s) => parsed_u64(s@),
        _ => None,
    }
}

/// Reads an unsigned 64-bit value from a canonical-JSON field.
pub fn canonical_json_to_u64(v: &JsonValue) -> (r: Option<u64>)
    ensures
        r == json_u64(*v),
{
    match v {
        JsonValue::UInt(n) => Some(*n),
        JsonValue::Text(s) => parse_u64(s.as_str()),
        _ => None,
    }
}

/// The effective preference a retention account-data document states:
/// a `mode` of `delete` or `auto`, `keep`, or `ask`; else a
/// `confirm_before_delete` flag; else a `retain` flag; else nothing.
pub open spec fn pref_of_doc(v: JsonValue) -> Option<UserRetentionPreference> {
    match field_of(v, "mode"@) {
        Some(JsonValue::Text(mode)) => if mode@ == "delete"@ || mode@ == "auto"@ {
            Some(UserRetentionPreference::Delete)
        } else if mode@ == "keep"@ {
            Some(UserRetentionPreference::Keep)
        } else if mode@ == "ask"@ {
            Some(UserRetentionPreference::Ask)
        } else {
            None
        },
        _ => match field_of(v, "confirm_before_delete"@) {
            Some(JsonValue::Bool(confirm)) => if confirm {
                Some(UserRetentionPreference::Ask)
            } else {
                Some(UserRetentionPreference::Delete)
            },
            _ => match field_of(v, "retain"@) {
                Some(JsonValue::Bool(keep)) => if keep {
                    Some(UserRetentionPreference::Keep)
                } else {
                    Some(UserRetentionPreference::Delete)
                },
                _ => None,
            },
        },
    }
}

/// Reads the effective retention preference out of an account-data
/// document.
pub fn parse_user_retention_preference(v: &JsonValue) -> (r: Option<UserRetentionPreference>)
    ensures
        r == pref_of_doc(*v),
{
    if let Some(mode_val) = get_field(v, "mode") {
        if let JsonValue::Text(mode) = mode_val {
            return if str_eq(mode.as_str(), "delete") || str_eq(mode.as_str(), "auto") {
                Some(UserRetentionPreference::Delete)
            } else if str_eq(mode.as_str(), "keep") {
                Some(UserRetentionPreference::Keep)
            } else if str_eq(mode.as_str(), "ask") {
                Some(UserRetentionPreference::Ask)
            } else {
                None
            };
        }
    }
    if let Some(confirm_val) = get_field(v, "confirm_before_delete") {
        if let JsonValue::Bool(confirm) = confirm_val {
            return if *confirm {
                Some(UserRetentionPreference::Ask)
            } else {
                Some(UserRetentionPreference::Delete)
            };
        }
    }
    if let Some(retain_val) = get_field(v, "retain") {
        if let JsonValue::Bool(keep) = retain_val {
            return if *keep {
                Some(UserRetentionPreference::Keep)
            } else {
                Some(UserRetentionPreference::Delete)
            };
        }
    }
    None
}

/// Whether an event document is an encrypted-room event.
pub open spec fn is_encrypted_event(v: JsonValue) -> bool {
    match field_of(v, "type"@) {
        Some(JsonValue::Text(t)) => t@ == "m.room.encrypted"@,
        _ => false,
    }
}

/// Decides whether an event document is an encrypted-room event.
pub fn event_is_encrypted(v: &JsonValue) -> (r: bool)
    ensures
        r == is_encrypted_event(*v),
{
    match get_field(v, "type") {
        Some(t) => match t {
            JsonValue::Text(tt) => str_eq(tt.as_str(), "m.room.encrypted"),
            _ => false,
        },
        None => false,
    }
}

/// The text of a field, when it is a string.
pub fn get_text_field(v: &JsonValue, name: &str) -> (r: Option<String>)
    ensures
        match r {
            Some(s) => field_of(*v, name@) matches Some(JsonValue::Text(t)) && s@ == t@,
            None => !(field_of(*v, name@) matches Some(JsonValue::Text(_))),
        },
{
    match get_field(v, name) {
        Some(f) => match f {
            JsonValue::Text(t) => Some(t.clone()),
            _ => None,
        },
        None => None,
    }
}

} // verus!
