//! The attachment metadata a case document records: an `attachments` array
//! on the case itself, or on one of its structured steps.

use vstd::prelude::*;

use crate::json::{Json, JsonValue, json_clone, lemma_array_model, values_of};
use crate::text::str_eq;

verus! {

/// The entries of `d`'s `attachments` array; none when it has no array.
pub open spec fn listed_attachments(d: Json) -> Seq<Json> {
    match d.get("attachments"@) {
        Some(Json::Array(xs)) => xs,
        _ => Seq::empty(),
    }
}

/// `d` recording one more attachment, `entry`, after those it records.
pub open spec fn with_attachment(d: Json, entry: Json) -> Json {
    d.set("attachments"@, Json::Array(listed_attachments(d).push(entry)))
}

/// Whether metadata entry `x` describes the stored file `filename`.
pub open spec fn names_file(x: Json, filename: Seq<char>) -> bool {
    x.str_at("filename"@) == Some(filename)
}

/// The entries of `d` other than those describing `filename`.
pub open spec fn other_attachments(d: Json, filename: Seq<char>) -> Seq<Json> {
    listed_attachments(d).filter(|x: Json| !names_file(x, filename))
}

/// `d` no longer recording `filename`; a document left with no attachment
/// carries no `attachments` member at all.
pub open spec fn without_attachment(d: Json, filename: Seq<char>) -> Json {
    if d.get("attachments"@) is None {
        d
    } else if other_attachments(d, filename).len() == 0 {
        d.unset("attachments"@)
    } else {
        d.set("attachments"@, Json::Array(other_attachments(d, filename)))
    }
}

/// Step `i` of `d`'s `steps` array.
pub open spec fn step_of(d: Json, i: int) -> Option<Json> {
    match d.get("steps"@) {
        Some(Json::Array(steps)) => if 0 <= i < steps.len() {
            Some(steps[i])
        } else {
            None
        },
        _ => None,
    }
}

/// `d` with step `i` replaced by `step`; `d` itself when it has no such step.
pub open spec fn with_step(d: Json, i: int, step: Json) -> Json {
    match d.get("steps"@) {
        Some(Json::Array(steps)) => if 0 <= i < steps.len() {
            d.set("steps"@, Json::Array(steps.update(i, step)))
        } else {
            d
        },
        _ => d,
    }
}

/// Whether `step` addresses a place that can record an attachment: the case
/// itself, or a structured (object) step of it.
pub open spec fn can_record(d: Json, step: Option<usize>) -> bool {
    match step {
        None => true,
        Some(i) => step_of(d, i as int) matches Some(s) && s is Object,
    }
}

/// `d` recording `entry` on the case or on step `step`.
pub open spec fn attached(d: Json, step: Option<usize>, entry: Json) -> Json {
    match step {
        None => with_attachment(d, entry),
        Some(i) => match step_of(d, i as int) {
            Some(s) => with_step(d, i as int, with_attachment(s, entry)),
            None => d,
        },
    }
}

/// `d` no longer recording `filename` on the case or on step `step`.
pub open spec fn detached(d: Json, step: Option<usize>, filename: Seq<char>) -> Json {
    match step {
        None => without_attachment(d, filename),
        Some(i) => match step_of(d, i as int) {
            Some(s) => with_step(d, i as int, without_attachment(s, filename)),
            None => d,
        },
    }
}

/// A copy of the entries of `d`'s `attachments` array.
pub fn attachments_of(d: &JsonValue) -> (r: Vec<JsonValue>)
    ensures
        values_of(r@) == listed_attachments(d@),
{
    match d.get("attachments") {
        Some(v) => match json_clone(v) {
            JsonValue::Array(xs) => {
                proof {
                    lemma_array_model(xs);
                }
                xs
            },
            _ => {
                let r: Vec<JsonValue> = Vec::new();
                assert(values_of(r@) =~= Seq::<Json>::empty());
                r
            },
        },
        None => {
            let r: Vec<JsonValue> = Vec::new();
            assert(values_of(r@) =~= Seq::<Json>::empty());
            r
        },
    }
}

/// Records one more attachment on `d`.
pub fn record_attachment(d: &mut JsonValue, entry: JsonValue)
    ensures
        final(d)@ == with_attachment(old(d)@, entry@),
{
    let mut xs = attachments_of(d);
    let ghost before = values_of(xs@);
    let ghost e = entry@;
    xs.push(entry);
    assert(values_of(xs@) =~= before.push(e));
    proof {
        lemma_array_model(xs);
    }
    d.insert("attachments", JsonValue::Array(xs));
}

/// Stops recording `filename` on `d`.
pub fn drop_attachment(d: &mut JsonValue, filename: &str)
    ensures
        final(d)@ == without_attachment(old(d)@, filename@),
{
    if d.get("attachments").is_none() {
        return;
    }
    let xs = attachments_of(d);
    let ghost all = values_of(xs@);
    let ghost keep = |x: Json| !names_file(x, filename@);
    let mut rest: Vec<JsonValue> = Vec::new();
    let mut i: usize = 0;
    while i < xs.len()
        invariant
            i <= xs.len(),
            all == values_of(xs@),
            keep == (|x: Json| !names_file(x, filename@)),
            values_of(rest@) == all.take(i as int).filter(keep),
        decreases xs.len() - i,
    {
        proof {
            crate::seqs::lemma_filter_take(all, keep, i as int);
        }
        let described = match xs[i].str_at("filename") {
            Some(name) => str_eq(name.as_str(), filename),
            None => false,
        };
        if !described {
            let ghost before = values_of(rest@);
            rest.push(json_clone(&xs[i]));
            assert(values_of(rest@) =~= before.push(all[i as int]));
        }
        i = i + 1;
    }
    assert(all.take(i as int) =~= all);
    if rest.len() == 0 {
        d.remove("attachments");
    } else {
        proof {
            lemma_array_model(rest);
        }
        d.insert("attachments", JsonValue::Array(rest));
    }
}

/// A copy of step `i` of `d`'s `steps` array, if it has one.
pub fn step_at(d: &JsonValue, i: usize) -> (r: Option<JsonValue>)
    ensures
        match r {
            Some(s) => step_of(d@, i as int) == Some(s@),
            None => step_of(d@, i as int) is None,
        },
{
    match d.get("steps") {
        Some(JsonValue::Array(steps)) => {
            proof {
                lemma_array_model(*steps);
            }
            if i < steps.len() {
                Some(json_clone(&steps[i]))
            } else {
                None
            }
        },
        _ => None,
    }
}

/// Replaces step `i` of `d` by `step`, when `d` has such a step.
fn replace_step(d: &mut JsonValue, i: usize, step: JsonValue)
    ensures
        final(d)@ == with_step(old(d)@, i as int, step@),
{
    let steps = match d.get("steps") {
        Some(v) => json_clone(v),
        None => {
            return;
        },
    };
    match steps {
        JsonValue::Array(mut xs) => {
            proof {
                lemma_array_model(xs);
            }
            if i < xs.len() {
                let ghost before = values_of(xs@);
                let ghost s = step@;
                xs.set(i, step);
                assert(values_of(xs@) =~= before.update(i as int, s));
                proof {
                    lemma_array_model(xs);
                }
                d.insert("steps", JsonValue::Array(xs));
            }
        },
        _ => {},
    }
}

/// Records `entry` on the case, or on step `step` of it.
pub fn record_attachment_at(d: &mut JsonValue, step: Option<usize>, entry: JsonValue)
    ensures
        final(d)@ == attached(old(d)@, step, entry@),
{
    match step {
        None => record_attachment(d, entry),
        Some(i) => match step_at(d, i) {
            Some(mut s) => {
                record_attachment(&mut s, entry);
                replace_step(d, i, s);
            },
            None => {},
        },
    }
}

/// Stops recording `filename` on the case, or on step `step` of it.
pub fn drop_attachment_at(d: &mut JsonValue, step: Option<usize>, filename: &str)
    ensures
        final(d)@ == detached(old(d)@, step, filename@),
{
    match step {
        None => drop_attachment(d, filename),
        Some(i) => match step_at(d, i) {
            Some(mut s) => {
                drop_attachment(&mut s, filename);
                replace_step(d, i, s);
            },
            None => {},
        },
    }
}

} // verus!
