//! The field visitor: accumulates one event's named field values as
//! rendered text, deduplicates repeated names under a configurable
//! policy, and renders the final message.

use vstd::prelude::*;
use crate::render::{
    render_bool, render_i64, render_u64, spec_bool_text, spec_i64_dec, spec_u64_dec,
};

verus! {

/// One field value of an event. The kind set is closed: every value an
/// event can attach to a field is one of these.
///
/// Kinds whose canonical rendering is already text (`Str`, `Error`,
/// `Debug`) carry that text; `Error` carries the error's message text and
/// `Debug` a debug-style rendering, both produced by the caller that
/// owns the original value. `F64Text` carries the display rendering of a
/// 64-bit float, produced at the boundary: floating-point formatting is
/// not done here.
pub enum FieldValue {
    /// Display text of a 64-bit float, rendered at the boundary.
    F64Text(String),
    /// A signed 64-bit integer, rendered here in decimal.
    I64(i64),
    /// An unsigned 64-bit integer, rendered here in decimal.
    U64(u64),
    /// A boolean, rendered here as `true` or `false`.
    Bool(bool),
    /// Text, rendered verbatim.
    Str(String),
    /// An error value, standing for its message text.
    Error(String),
    /// An opaque value, standing for its debug-style rendering.
    Debug(String),
}

/// The canonical text for a field value: decimal for integers,
/// `true`/`false` for booleans, the carried text verbatim for the rest.
pub open spec fn spec_render_value(v: FieldValue) -> Seq<char> {
    match v {
        FieldValue::F64Text(t) => t@,
        FieldValue::I64(n) => spec_i64_dec(n as int),
        FieldValue::U64(n) => spec_u64_dec(n as nat),
        FieldValue::Bool(b) => spec_bool_text(b),
        FieldValue::Str(t) => t@,
        FieldValue::Error(t) => t@,
        FieldValue::Debug(t) => t@,
    }
}

/// Renders one field value to its canonical text.
pub fn render_value(v: &FieldValue) -> (s: String)
    ensures
        s@ == spec_render_value(*v),
{
    match v {
        FieldValue::F64Text(t) => t.clone(),
        FieldValue::I64(n) => render_i64(*n),
        FieldValue::U64(n) => render_u64(*n),
        FieldValue::Bool(b) => render_bool(*b),
        FieldValue::Str(t) => t.clone(),
        FieldValue::Error(t) => t.clone(),
        FieldValue::Debug(t) => t.clone(),
    }
}

/// What survives when the same field name is recorded more than once for
/// one event.
#[derive(Clone, Copy, PartialEq, Eq, Structural, Debug)]
pub enum DedupPolicy {
    /// The first-recorded value for a name is kept, at its position;
    /// later values for the same name are dropped.
    FirstWins,
    /// The last-recorded value for a name is kept, at the position of
    /// that last occurrence; earlier values for the same name are
    /// dropped.
    LastWins,
}

/// The abstract state of a visitor: the recorded (name, rendered text)
/// pairs, in recording order.
pub type FieldPairs = Seq<(Seq<char>, Seq<char>)>;

/// The view of a concrete (name, text) pair list.
spec fn spec_pairs_view(fs: Seq<(String, String)>) -> FieldPairs {
    fs.map_values(|p: (String, String)| (p.0@, p.1@))
}

/// Whether some recorded pair carries the given name.
pub open spec fn spec_contains_name(s: FieldPairs, name: Seq<char>) -> bool {
    exists|i: int| 0 <= i < s.len() && s[i].0 == name
}

/// The pairs of `s` whose name is not `name`, in order.
pub open spec fn spec_remove_name(s: FieldPairs, name: Seq<char>) -> FieldPairs
    decreases s.len(),
{
    if s.len() == 0 {
        Seq::empty()
    } else if s.last().0 == name {
        spec_remove_name(s.drop_last(), name)
    } else {
        spec_remove_name(s.drop_last(), name).push(s.last())
    }
}

/// First-occurrence-wins deduplication: a pair is kept exactly when no
/// earlier pair carries the same name, and kept pairs stay in order.
pub open spec fn spec_dedup_first(s: FieldPairs) -> FieldPairs
    decreases s.len(),
{
    if s.len() == 0 {
        Seq::empty()
    } else {
        let prefix = spec_dedup_first(s.drop_last());
        if spec_contains_name(prefix, s.last().0) {
            prefix
        } else {
            prefix.push(s.last())
        }
    }
}

/// Last-occurrence-wins deduplication: a pair is kept exactly when no
/// later pair carries the same name, and kept pairs stay in order.
pub open spec fn spec_dedup_last(s: FieldPairs) -> FieldPairs
    decreases s.len(),
{
    if s.len() == 0 {
        Seq::empty()
    } else {
        spec_remove_name(spec_dedup_last(s.drop_last()), s.last().0).push(s.last())
    }
}

/// Deduplication under the chosen policy.
pub open spec fn spec_dedup(policy: DedupPolicy, s: FieldPairs) -> FieldPairs {
    match policy {
        DedupPolicy::FirstWins => spec_dedup_first(s),
        DedupPolicy::LastWins => spec_dedup_last(s),
    }
}

/// The message segment for one retained field: `" "`, the name, `": "`,
/// the rendered text.
pub open spec fn spec_segment(name: Seq<char>, text: Seq<char>) -> Seq<char> {
    seq![' '] + name + seq![':', ' '] + text
}

/// The message for a pair list: one segment per pair, concatenated in
/// order.
pub open spec fn spec_message_of(s: FieldPairs) -> Seq<char>
    decreases s.len(),
{
    if s.len() == 0 {
        Seq::empty()
    } else {
        spec_message_of(s.drop_last()) + spec_segment(s.last().0, s.last().1)
    }
}

/// Whether some pair of `s` equals `e`.
pub open spec fn spec_contains_entry(s: FieldPairs, e: (Seq<char>, Seq<char>)) -> bool {
    exists|i: int| 0 <= i < s.len() && s[i] == e
}

/// No two pairs of `s` carry the same name.
pub open spec fn spec_names_distinct(s: FieldPairs) -> bool {
    forall|i: int, j: int| 0 <= i < j < s.len() ==> s[i].0 != s[j].0
}

/// `e` stands in `s` at a position before which its name does not occur.
pub open spec fn spec_is_first_occurrence(s: FieldPairs, e: (Seq<char>, Seq<char>)) -> bool {
    exists|j: int|
        {
            &&& 0 <= j < s.len()
            &&& #[trigger] s[j] == e
            &&& forall|k: int| 0 <= k < j ==> s[k].0 != e.0
        }
}

/// `e` stands in `s` at a position after which its name does not occur.
pub open spec fn spec_is_last_occurrence(s: FieldPairs, e: (Seq<char>, Seq<char>)) -> bool {
    exists|j: int|
        {
            &&& 0 <= j < s.len()
            &&& #[trigger] s[j] == e
            &&& forall|k: int| j < k < s.len() ==> s[k].0 != e.0
        }
}

/// Removing a name that does not occur changes nothing.
proof fn lemma_remove_name_absent(s: FieldPairs, name: Seq<char>)
    requires
        !spec_contains_name(s, name),
    ensures
        spec_remove_name(s, name) == s,
    decreases s.len(),
{
    if s.len() > 0 {
        let t = s.drop_last();
        assert(forall|i: int| 0 <= i < t.len() ==> #[trigger] t[i] == s[i]);
        assert(s[s.len() - 1].0 != name);
        assert forall|i: int| 0 <= i < t.len() implies t[i].0 != name by {
            assert(s[i].0 != name);
        }
        lemma_remove_name_absent(t, name);
        assert(spec_remove_name(s, name) =~= s);
    } else {
        assert(spec_remove_name(s, name) =~= s);
    }
}

/// What removing a name leaves: exactly the pairs of `s` with another
/// name, each an entry of `s`, in order; distinctness is preserved.
proof fn lemma_remove_name_facts(s: FieldPairs, name: Seq<char>)
    ensures
        forall|i: int|
            0 <= i < spec_remove_name(s, name).len() ==> (#[trigger] spec_remove_name(s, name)[i]).0
                != name && spec_contains_entry(s, spec_remove_name(s, name)[i]),
        forall|m: Seq<char>|
            #[trigger] spec_contains_name(spec_remove_name(s, name), m) <==> (spec_contains_name(
                s,
                m,
            ) && m != name),
        spec_names_distinct(s) ==> spec_names_distinct(spec_remove_name(s, name)),
    decreases s.len(),
{
    let r = spec_remove_name(s, name);
    if s.len() == 0 {
        assert forall|m: Seq<char>|
            #[trigger] spec_contains_name(r, m) <==> (spec_contains_name(s, m)
                && m != name) by {
            assert(!spec_contains_name(r, m));
            assert(!spec_contains_name(s, m));
        }
    } else {
        let t = s.drop_last();
        let e = s.last();
        lemma_remove_name_facts(t, name);
        let rt = spec_remove_name(t, name);
        assert(forall|i: int| 0 <= i < t.len() ==> #[trigger] t[i] == s[i]);
        assert(s[s.len() - 1] == e);
        assert forall|x: (Seq<char>, Seq<char>)| spec_contains_entry(t, x) implies #[trigger]
        spec_contains_entry(s, x) by {
            let i = choose|i: int| 0 <= i < t.len() && t[i] == x;
            assert(s[i] == x);
        }
        assert forall|m: Seq<char>|
            #[trigger] spec_contains_name(s, m) <==> (spec_contains_name(t, m) || e.0 == m) by {
            if spec_contains_name(s, m) {
                let i = choose|i: int| 0 <= i < s.len() && s[i].0 == m;
                if i < s.len() - 1 {
                    assert(t[i].0 == m);
                    assert(spec_contains_name(t, m));
                }
            }
            if spec_contains_name(t, m) {
                let i = choose|i: int| 0 <= i < t.len() && t[i].0 == m;
                assert(s[i].0 == m);
            }
            if e.0 == m {
                assert(s[s.len() - 1].0 == m);
            }
        }
        if spec_names_distinct(s) {
            assert forall|i: int, j: int| 0 <= i < j < t.len() implies t[i].0 != t[j].0 by {
                assert(s[i].0 != s[j].0);
            }
        }
        if e.0 == name {
            assert(r == rt);
            assert forall|i: int| 0 <= i < r.len() implies (#[trigger] r[i]).0 != name
                && spec_contains_entry(s, r[i]) by {
                assert(rt[i].0 != name && spec_contains_entry(t, rt[i]));
            }
            assert forall|m: Seq<char>|
                #[trigger] spec_contains_name(r, m) <==> (spec_contains_name(s, m)
                    && m != name) by {
                assert(spec_contains_name(rt, m) <==> (spec_contains_name(t, m) && m != name));
            }
        } else {
            assert(r == rt.push(e));
            assert(forall|i: int| 0 <= i < rt.len() ==> #[trigger] r[i] == rt[i]);
            assert(r[r.len() - 1] == e);
            assert forall|i: int| 0 <= i < r.len() implies (#[trigger] r[i]).0 != name
                && spec_contains_entry(s, r[i]) by {
                if i < rt.len() {
                    assert(rt[i].0 != name && spec_contains_entry(t, rt[i]));
                } else {
                    assert(r[i] == e);
                    assert(s[s.len() - 1] == e);
                    assert(spec_contains_entry(s, e));
                }
            }
            assert forall|m: Seq<char>|
                #[trigger] spec_contains_name(r, m) <==> (spec_contains_name(s, m)
                    && m != name) by {
                assert(spec_contains_name(rt, m) <==> (spec_contains_name(t, m) && m != name));
                if spec_contains_name(r, m) {
                    let i = choose|i: int| 0 <= i < r.len() && r[i].0 == m;
                    if i < rt.len() {
                        assert(rt[i].0 == m);
                        assert(spec_contains_name(rt, m));
                    } else {
                        assert(e.0 == m);
                    }
                }
                if spec_contains_name(s, m) && m != name {
                    if e.0 == m {
                        assert(r[r.len() - 1].0 == m);
                        assert(spec_contains_name(r, m));
                    } else {
                        assert(spec_contains_name(t, m));
                        assert(spec_contains_name(rt, m));
                        let i = choose|i: int| 0 <= i < rt.len() && rt[i].0 == m;
                        assert(r[i].0 == m);
                        assert(spec_contains_name(r, m));
                    }
                }
            }
            if spec_names_distinct(s) {
                assert(spec_names_distinct(rt));
                assert(!spec_contains_name(rt, e.0)) by {
                    if spec_contains_name(rt, e.0) {
                        assert(spec_contains_name(t, e.0));
                        let i = choose|i: int| 0 <= i < t.len() && t[i].0 == e.0;
                        assert(s[i].0 == s[s.len() - 1].0);
                        assert(false);
                    }
                }
                assert forall|i: int, j: int| 0 <= i < j < r.len() implies r[i].0 != r[j].0 by {
                    if j < rt.len() {
                        assert(rt[i].0 != rt[j].0);
                    } else {
                        assert(r[j] == e);
                        if rt[i].0 == e.0 {
                            assert(spec_contains_name(rt, e.0));
                        }
                    }
                }
            }
        }
    }
}

/// Law: when every recorded name is distinct, deduplication keeps every
/// pair, under either policy, and the rendered message has exactly one
/// segment per recorded pair, in recording order.
pub proof fn lemma_dedup_distinct_identity(policy: DedupPolicy, s: FieldPairs)
    requires
        spec_names_distinct(s),
    ensures
        spec_dedup(policy, s) == s,
        spec_message_of(spec_dedup(policy, s)) == spec_message_of(s),
    decreases s.len(),
{
    if s.len() > 0 {
        let t = s.drop_last();
        let e = s.last();
        assert(forall|i: int| 0 <= i < t.len() ==> #[trigger] t[i] == s[i]);
        assert forall|i: int, j: int| 0 <= i < j < t.len() implies t[i].0 != t[j].0 by {
            assert(s[i].0 != s[j].0);
        }
        lemma_dedup_distinct_identity(policy, t);
        assert(!spec_contains_name(t, e.0)) by {
            if spec_contains_name(t, e.0) {
                let i = choose|i: int| 0 <= i < t.len() && t[i].0 == e.0;
                assert(s[i].0 == s[s.len() - 1].0);
                assert(false);
            }
        }
        match policy {
            DedupPolicy::FirstWins => {
                assert(spec_dedup_first(s) =~= t.push(e));
                assert(t.push(e) =~= s);
            },
            DedupPolicy::LastWins => {
                lemma_remove_name_absent(t, e.0);
                assert(spec_dedup_last(s) =~= t.push(e));
                assert(t.push(e) =~= s);
            },
        }
    } else {
        assert(spec_dedup_first(s) =~= s);
        assert(spec_dedup_last(s) =~= s);
    }
}

/// First-occurrence-wins deduplication keeps each recorded name exactly
/// once, keeps exactly the recorded names, and every kept pair is the
/// first occurrence of its name.
proof fn lemma_dedup_first_properties(s: FieldPairs)
    ensures
        spec_names_distinct(spec_dedup_first(s)),
        forall|m: Seq<char>|
            #[trigger] spec_contains_name(spec_dedup_first(s), m) <==> spec_contains_name(s, m),
        forall|i: int|
            0 <= i < spec_dedup_first(s).len() ==> spec_is_first_occurrence(
                s,
                #[trigger] spec_dedup_first(s)[i],
            ),
    decreases s.len(),
{
    let r = spec_dedup_first(s);
    if s.len() == 0 {
        assert forall|m: Seq<char>|
            #[trigger] spec_contains_name(r, m) <==> spec_contains_name(s, m) by {
            assert(!spec_contains_name(r, m));
            assert(!spec_contains_name(s, m));
        }
    } else {
        let t = s.drop_last();
        let e = s.last();
        lemma_dedup_first_properties(t);
        let p = spec_dedup_first(t);
        assert(forall|i: int| 0 <= i < t.len() ==> #[trigger] t[i] == s[i]);
        assert(s[s.len() - 1] == e);
        assert forall|m: Seq<char>|
            #[trigger] spec_contains_name(s, m) <==> (spec_contains_name(t, m) || e.0 == m) by {
            if spec_contains_name(s, m) {
                let i = choose|i: int| 0 <= i < s.len() && s[i].0 == m;
                if i < s.len() - 1 {
                    assert(t[i].0 == m);
                    assert(spec_contains_name(t, m));
                }
            }
            if spec_contains_name(t, m) {
                let i = choose|i: int| 0 <= i < t.len() && t[i].0 == m;
                assert(s[i].0 == m);
            }
            if e.0 == m {
                assert(s[s.len() - 1].0 == m);
            }
        }
        assert forall|x: (Seq<char>, Seq<char>)|
            spec_is_first_occurrence(t, x) implies #[trigger] spec_is_first_occurrence(s, x) by {
            let j = choose|j: int|
                0 <= j < t.len() && #[trigger] t[j] == x && (forall|k: int|
                    0 <= k < j ==> t[k].0 != x.0);
            assert(s[j] == x);
            assert forall|k: int| 0 <= k < j implies s[k].0 != x.0 by {
                assert(t[k].0 != x.0);
            }
        }
        if spec_contains_name(p, e.0) {
            assert(r == p);
        } else {
            assert(r == p.push(e));
            assert(forall|i: int| 0 <= i < p.len() ==> #[trigger] r[i] == p[i]);
            assert(r[r.len() - 1] == e);
            assert(!spec_contains_name(t, e.0));
            assert forall|m: Seq<char>|
                #[trigger] spec_contains_name(r, m) <==> spec_contains_name(s, m) by {
                if spec_contains_name(r, m) {
                    let i = choose|i: int| 0 <= i < r.len() && r[i].0 == m;
                    if i < p.len() {
                        assert(p[i].0 == m);
                        assert(spec_contains_name(p, m));
                    } else {
                        assert(e.0 == m);
                    }
                }
                if spec_contains_name(s, m) {
                    if spec_contains_name(t, m) {
                        assert(spec_contains_name(p, m));
                        let i = choose|i: int| 0 <= i < p.len() && p[i].0 == m;
                        assert(r[i].0 == m);
                        assert(spec_contains_name(r, m));
                    } else {
                        assert(e.0 == m);
                        assert(r[r.len() - 1].0 == m);
                        assert(spec_contains_name(r, m));
                    }
                }
            }
            assert forall|i: int, j: int| 0 <= i < j < r.len() implies r[i].0 != r[j].0 by {
                if j < p.len() {
                    assert(p[i].0 != p[j].0);
                } else {
                    assert(r[j] == e);
                    if p[i].0 == e.0 {
                        assert(spec_contains_name(p, e.0));
                    }
                }
            }
            assert forall|i: int| 0 <= i < r.len() implies spec_is_first_occurrence(
                s,
                #[trigger] r[i],
            ) by {
                if i < p.len() {
                    assert(spec_is_first_occurrence(t, p[i]));
                } else {
                    assert(r[i] == e);
                    assert forall|k: int| 0 <= k < s.len() - 1 implies s[k].0 != e.0 by {
                        assert(t[k] == s[k]);
                        if s[k].0 == e.0 {
                            assert(spec_contains_name(t, e.0));
                        }
                    }
                    assert(s[s.len() - 1] == e);
                    assert(spec_is_first_occurrence(s, e));
                }
            }
        }
    }
}

/// Last-occurrence-wins deduplication keeps each recorded name exactly
/// once, keeps exactly the recorded names, and every kept pair is the
/// last occurrence of its name.
proof fn lemma_dedup_last_properties(s: FieldPairs)
    ensures
        spec_names_distinct(spec_dedup_last(s)),
        forall|m: Seq<char>|
            #[trigger] spec_contains_name(spec_dedup_last(s), m) <==> spec_contains_name(s, m),
        forall|i: int|
            0 <= i < spec_dedup_last(s).len() ==> spec_is_last_occurrence(
                s,
                #[trigger] spec_dedup_last(s)[i],
            ),
    decreases s.len(),
{
    let r = spec_dedup_last(s);
    if s.len() == 0 {
        assert forall|m: Seq<char>|
            #[trigger] spec_contains_name(r, m) <==> spec_contains_name(s, m) by {
            assert(!spec_contains_name(r, m));
            assert(!spec_contains_name(s, m));
        }
    } else {
        let t = s.drop_last();
        let e = s.last();
        lemma_dedup_last_properties(t);
        let p = spec_dedup_last(t);
        lemma_remove_name_facts(p, e.0);
        let rm = spec_remove_name(p, e.0);
        assert(r == rm.push(e));
        assert(forall|i: int| 0 <= i < rm.len() ==> #[trigger] r[i] == rm[i]);
        assert(r[r.len() - 1] == e);
        assert(forall|i: int| 0 <= i < t.len() ==> #[trigger] t[i] == s[i]);
        assert(s[s.len() - 1] == e);
        assert forall|m: Seq<char>|
            #[trigger] spec_contains_name(s, m) <==> (spec_contains_name(t, m) || e.0 == m) by {
            if spec_contains_name(s, m) {
                let i = choose|i: int| 0 <= i < s.len() && s[i].0 == m;
                if i < s.len() - 1 {
                    assert(t[i].0 == m);
                    assert(spec_contains_name(t, m));
                }
            }
            if spec_contains_name(t, m) {
                let i = choose|i: int| 0 <= i < t.len() && t[i].0 == m;
                assert(s[i].0 == m);
            }
            if e.0 == m {
                assert(s[s.len() - 1].0 == m);
            }
        }
        assert forall|x: (Seq<char>, Seq<char>)|
            spec_is_last_occurrence(t, x) && x.0 != e.0 implies #[trigger] spec_is_last_occurrence(
            s,
            x,
        ) by {
            let j = choose|j: int|
                0 <= j < t.len() && #[trigger] t[j] == x && (forall|k: int|
                    j < k < t.len() ==> t[k].0 != x.0);
            assert(s[j] == x);
            assert forall|k: int| j < k < s.len() implies s[k].0 != x.0 by {
                if k < s.len() - 1 {
                    assert(t[k].0 != x.0);
                } else {
                    assert(s[k] == e);
                }
            }
        }
        assert(spec_names_distinct(rm));
        assert forall|i: int, j: int| 0 <= i < j < r.len() implies r[i].0 != r[j].0 by {
            if j < rm.len() {
                assert(rm[i].0 != rm[j].0);
            } else {
                assert(r[j] == e);
                assert(rm[i].0 != e.0);
            }
        }
        assert forall|m: Seq<char>|
            #[trigger] spec_contains_name(r, m) <==> spec_contains_name(s, m) by {
            assert(spec_contains_name(rm, m) <==> (spec_contains_name(p, m) && m != e.0));
            assert(spec_contains_name(p, m) <==> spec_contains_name(t, m));
            if spec_contains_name(r, m) {
                let i = choose|i: int| 0 <= i < r.len() && r[i].0 == m;
                if i < rm.len() {
                    assert(rm[i].0 == m);
                    assert(spec_contains_name(rm, m));
                } else {
                    assert(e.0 == m);
                }
            }
            if spec_contains_name(s, m) {
                if m == e.0 {
                    assert(r[r.len() - 1].0 == m);
                    assert(spec_contains_name(r, m));
                } else {
                    assert(spec_contains_name(t, m));
                    assert(spec_contains_name(rm, m));
                    let i = choose|i: int| 0 <= i < rm.len() && rm[i].0 == m;
                    assert(r[i].0 == m);
                    assert(spec_contains_name(r, m));
                }
            }
        }
        assert forall|i: int| 0 <= i < r.len() implies spec_is_last_occurrence(
            s,
            #[trigger] r[i],
        ) by {
            if i < rm.len() {
                let x = rm[i];
                assert(x.0 != e.0 && spec_contains_entry(p, x));
                let ip = choose|ip: int| 0 <= ip < p.len() && p[ip] == x;
                assert(spec_is_last_occurrence(t, p[ip]));
                assert(spec_is_last_occurrence(s, x));
            } else {
                assert(r[i] == e);
                assert(s[s.len() - 1] == e);
                assert(spec_is_last_occurrence(s, e));
            }
        }
    }
}

/// Law: deduplication keeps exactly one pair per recorded name.
/// The result's names are distinct; a name occurs in the result exactly
/// when it was recorded; and every kept pair is the first occurrence of
/// its name under `FirstWins`, the last under `LastWins`.
pub proof fn lemma_dedup_unique_per_name(policy: DedupPolicy, s: FieldPairs)
    ensures
        spec_names_distinct(spec_dedup(policy, s)),
        forall|m: Seq<char>|
            #[trigger] spec_contains_name(spec_dedup(policy, s), m) <==> spec_contains_name(s, m),
        policy == DedupPolicy::FirstWins ==> forall|i: int|
            0 <= i < spec_dedup(policy, s).len() ==> spec_is_first_occurrence(
                s,
                #[trigger] spec_dedup(policy, s)[i],
            ),
        policy == DedupPolicy::LastWins ==> forall|i: int|
            0 <= i < spec_dedup(policy, s).len() ==> spec_is_last_occurrence(
                s,
                #[trigger] spec_dedup(policy, s)[i],
            ),
{
    match policy {
        DedupPolicy::FirstWins => lemma_dedup_first_properties(s),
        DedupPolicy::LastWins => lemma_dedup_last_properties(s),
    }
}

/// The visitor: accumulates one event's fields as (name, rendered text)
/// pairs, in the order the event delivers them. It has no effect beyond
/// its own accumulator.
pub struct ToStringVisitor {
    fields: Vec<(String, String)>,
}

impl View for ToStringVisitor {
    type V = FieldPairs;

    closed spec fn view(&self) -> FieldPairs {
        spec_pairs_view(self.fields@)
    }
}

impl ToStringVisitor {
    /// A fresh visitor with nothing recorded.
    pub fn new() -> (v: ToStringVisitor)
        ensures
            v@ == Seq::<(Seq<char>, Seq<char>)>::empty(),
    {
        let v = ToStringVisitor { fields: Vec::new() };
        proof {
            assert(v@ =~= Seq::<(Seq<char>, Seq<char>)>::empty());
        }
        v
    }

    /// Records one already-rendered text for a name.
    fn record_text(&mut self, name: &str, text: String)
        ensures
            final(self)@ == old(self)@.push((name@, text@)),
    {
        let owned: String = name.to_owned();
        self.fields.push((owned, text));
        proof {
            assert(self@ =~= old(self)@.push((name@, text@)));
        }
    }

    /// Records a float field by the display text rendered at the
    /// boundary.
    pub fn record_f64(&mut self, name: &str, rendered: &str)
        ensures
            final(self)@ == old(self)@.push((name@, rendered@)),
    {
        self.record_text(name, rendered.to_owned());
    }

    /// Records a signed 64-bit integer field.
    pub fn record_i64(&mut self, name: &str, value: i64)
        ensures
            final(self)@ == old(self)@.push((name@, spec_i64_dec(value as int))),
    {
        self.record_text(name, render_i64(value));
    }

    /// Records an unsigned 64-bit integer field.
    pub fn record_u64(&mut self, name: &str, value: u64)
        ensures
            final(self)@ == old(self)@.push((name@, spec_u64_dec(value as nat))),
    {
        self.record_text(name, render_u64(value));
    }

    /// Records a boolean field.
    pub fn record_bool(&mut self, name: &str, value: bool)
        ensures
            final(self)@ == old(self)@.push((name@, spec_bool_text(value))),
    {
        self.record_text(name, render_bool(value));
    }

    /// Records a text field, kept verbatim.
    pub fn record_str(&mut self, name: &str, value: &str)
        ensures
            final(self)@ == old(self)@.push((name@, value@)),
    {
        self.record_text(name, value.to_owned());
    }

    /// Records an error field by its message text.
    pub fn record_error(&mut self, name: &str, message: &str)
        ensures
            final(self)@ == old(self)@.push((name@, message@)),
    {
        self.record_text(name, message.to_owned());
    }

    /// Records an opaque field by its debug-style rendering.
    pub fn record_debug(&mut self, name: &str, rendered: &str)
        ensures
            final(self)@ == old(self)@.push((name@, rendered@)),
    {
        self.record_text(name, rendered.to_owned());
    }

    /// Records one field value of any kind.
    pub fn record_value(&mut self, name: &str, value: &FieldValue)
        ensures
            final(self)@ == old(self)@.push((name@, spec_render_value(*value))),
    {
        let text = render_value(value);
        self.record_text(name, text);
    }

    /// Renders the final message: one `" name: text"` segment per
    /// retained pair, in order, after deduplicating repeated names under
    /// the given policy.
    pub fn render(&self, policy: DedupPolicy) -> (s: String)
        ensures
            s@ == spec_message_of(spec_dedup(policy, self@)),
    {
        let deduped: Vec<(String, String)> = match policy {
            DedupPolicy::FirstWins => dedup_first_fields(&self.fields),
            DedupPolicy::LastWins => dedup_last_fields(&self.fields),
        };
        let ghost d: FieldPairs = spec_dedup(policy, self@);
        let mut s = String::new();
        let mut k: usize = 0;
        proof {
            assert(d.take(0) =~= Seq::<(Seq<char>, Seq<char>)>::empty());
        }
        while k < deduped.len()
            invariant
                k <= deduped@.len(),
                spec_pairs_view(deduped@) == d,
                s@ =~= spec_message_of(d.take(k as int)),
            decreases deduped@.len() - k,
        {
            proof {
                reveal_strlit(" ");
                reveal_strlit(": ");
                assert(d.take(k + 1).drop_last() =~= d.take(k as int));
                assert(d.take(k + 1).last() == d[k as int]);
                assert(d[k as int] == (deduped@[k as int].0@, deduped@[k as int].1@));
            }
            let ghost before: Seq<char> = s@;
            s.append(" ");
            s.append(deduped[k].0.as_str());
            s.append(": ");
            s.append(deduped[k].1.as_str());
            proof {
                assert(s@ =~= before + spec_segment(d[k as int].0, d[k as int].1));
                assert(s@ =~= spec_message_of(d.take(k + 1)));
            }
            k = k + 1;
        }
        proof {
            assert(d.take(deduped@.len() as int) =~= d);
        }
        s
    }
}

/// Whether some pair of `v` carries the given name.
fn vec_contains_name(v: &Vec<(String, String)>, name: &String) -> (r: bool)
    ensures
        r == spec_contains_name(spec_pairs_view(v@), name@),
{
    let mut j: usize = 0;
    while j < v.len()
        invariant
            j <= v@.len(),
            forall|k: int| 0 <= k < j ==> #[trigger] spec_pairs_view(v@)[k].0 != name@,
        decreases v@.len() - j,
    {
        if v[j].0 == *name {
            proof {
                assert(spec_pairs_view(v@)[j as int].0 == name@);
            }
            return true;
        }
        j = j + 1;
    }
    false
}

/// The pairs of `v` whose name is not `name`, in order.
fn remove_name_fields(v: &Vec<(String, String)>, name: &String) -> (out: Vec<(String, String)>)
    ensures
        spec_pairs_view(out@) == spec_remove_name(spec_pairs_view(v@), name@),
{
    let mut out: Vec<(String, String)> = Vec::new();
    let mut j: usize = 0;
    proof {
        assert(spec_pairs_view(v@).take(0) =~= Seq::<(Seq<char>, Seq<char>)>::empty());
        assert(spec_pairs_view(out@) =~= Seq::<(Seq<char>, Seq<char>)>::empty());
    }
    while j < v.len()
        invariant
            j <= v@.len(),
            spec_pairs_view(out@) =~= spec_remove_name(
                spec_pairs_view(v@).take(j as int),
                name@,
            ),
        decreases v@.len() - j,
    {
        proof {
            assert(spec_pairs_view(v@).take(j + 1).drop_last() =~= spec_pairs_view(v@).take(
                j as int,
            ));
            assert(spec_pairs_view(v@).take(j + 1).last() == spec_pairs_view(v@)[j as int]);
            assert(spec_pairs_view(v@)[j as int] == (v@[j as int].0@, v@[j as int].1@));
        }
        if !(v[j].0 == *name) {
            out.push((v[j].0.clone(), v[j].1.clone()));
        }
        proof {
            assert(spec_pairs_view(out@) =~= spec_remove_name(
                spec_pairs_view(v@).take(j + 1),
                name@,
            ));
        }
        j = j + 1;
    }
    proof {
        assert(spec_pairs_view(v@).take(v@.len() as int) =~= spec_pairs_view(v@));
    }
    out
}

/// First-occurrence-wins deduplication of a pair list.
fn dedup_first_fields(fields: &Vec<(String, String)>) -> (out: Vec<(String, String)>)
    ensures
        spec_pairs_view(out@) == spec_dedup_first(spec_pairs_view(fields@)),
{
    let mut out: Vec<(String, String)> = Vec::new();
    let mut k: usize = 0;
    proof {
        assert(spec_pairs_view(fields@).take(0) =~= Seq::<(Seq<char>, Seq<char>)>::empty());
        assert(spec_pairs_view(out@) =~= Seq::<(Seq<char>, Seq<char>)>::empty());
    }
    while k < fields.len()
        invariant
            k <= fields@.len(),
            spec_pairs_view(out@) =~= spec_dedup_first(spec_pairs_view(fields@).take(k as int)),
        decreases fields@.len() - k,
    {
        proof {
            assert(spec_pairs_view(fields@).take(k + 1).drop_last() =~= spec_pairs_view(
                fields@,
            ).take(k as int));
            assert(spec_pairs_view(fields@).take(k + 1).last() == spec_pairs_view(fields@)[
                k as int]);
            assert(spec_pairs_view(fields@)[k as int] == (
                fields@[k as int].0@,
                fields@[k as int].1@,
            ));
        }
        if !vec_contains_name(&out, &fields[k].0) {
            out.push((fields[k].0.clone(), fields[k].1.clone()));
        }
        proof {
            assert(spec_pairs_view(out@) =~= spec_dedup_first(
                spec_pairs_view(fields@).take(k + 1),
            ));
        }
        k = k + 1;
    }
    proof {
        assert(spec_pairs_view(fields@).take(fields@.len() as int) =~= spec_pairs_view(fields@));
    }
    out
}

/// Last-occurrence-wins deduplication of a pair list.
fn dedup_last_fields(fields: &Vec<(String, String)>) -> (out: Vec<(String, String)>)
    ensures
        spec_pairs_view(out@) == spec_dedup_last(spec_pairs_view(fields@)),
{
    let mut out: Vec<(String, String)> = Vec::new();
    let mut k: usize = 0;
    proof {
        assert(spec_pairs_view(fields@).take(0) =~= Seq::<(Seq<char>, Seq<char>)>::empty());
        assert(spec_pairs_view(out@) =~= Seq::<(Seq<char>, Seq<char>)>::empty());
    }
    while k < fields.len()
        invariant
            k <= fields@.len(),
            spec_pairs_view(out@) =~= spec_dedup_last(spec_pairs_view(fields@).take(k as int)),
        decreases fields@.len() - k,
    {
        proof {
            assert(spec_pairs_view(fields@).take(k + 1).drop_last() =~= spec_pairs_view(
                fields@,
            ).take(k as int));
            assert(spec_pairs_view(fields@).take(k + 1).last() == spec_pairs_view(fields@)[
                k as int]);
            assert(spec_pairs_view(fields@)[k as int] == (
                fields@[k as int].0@,
                fields@[k as int].1@,
            ));
        }
        let mut kept = remove_name_fields(&out, &fields[k].0);
        kept.push((fields[k].0.clone(), fields[k].1.clone()));
        out = kept;
        proof {
            assert(spec_pairs_view(out@) =~= spec_dedup_last(
                spec_pairs_view(fields@).take(k + 1),
            ));
        }
        k = k + 1;
    }
    proof {
        assert(spec_pairs_view(fields@).take(fields@.len() as int) =~= spec_pairs_view(fields@));
    }
    out
}

} // verus!
