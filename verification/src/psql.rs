//! The SQL formatters: per-event INSERT statements, and snapshot UPSERT
//! statements guarded by key equality and time ordering.

use vstd::prelude::*;
use vstd::utf8::encode_utf8;
use crate::codec::{Formatter, FormatterContext, FormatterContextS};
use crate::dsv::{string_bytes};
use crate::errors::{names_view, FormatterError, PsqlSnapshotFormatterError};
use crate::events::clone_values;
use crate::jsonvalues::{strmap_get, strmap_view, StrMap};
use crate::num::{dec_text, int_text};
use crate::text::{split_on_str, split_sub_text, str_chars, strs_view};
use crate::value::{Key, Value, ValueS};

verus! {

/// Pieces joined by an arbitrary separator text.
pub open spec fn texts_joined(parts: Seq<Seq<char>>, sep: Seq<char>) -> Seq<char>
    decreases parts.len(),
{
    if parts.len() == 0 {
        Seq::empty()
    } else if parts.len() == 1 {
        parts[0]
    } else {
        texts_joined(parts.drop_last(), sep) + sep + parts.last()
    }
}

/// Joins the pieces with the separator, per `texts_joined`.
fn join_with(pieces: &Vec<String>, sep: &str) -> (r: String)
    ensures
        r@ == texts_joined(strs_view(pieces@), sep@),
{
    let mut out = String::new();
    let mut i: usize = 0;
    while i < pieces.len()
        invariant
            i <= pieces@.len(),
            out@ == texts_joined(strs_view(pieces@).subrange(0, i as int), sep@),
        decreases pieces@.len() - i,
    {
        proof {
            assert(strs_view(pieces@)[i as int] == pieces@[i as int]@);
            assert(strs_view(pieces@).subrange(0, i + 1).drop_last() =~= strs_view(
                pieces@,
            ).subrange(0, i as int));
            assert(strs_view(pieces@).subrange(0, i + 1).last() == strs_view(pieces@)[i as int]);
            if i == 0 {
                assert(strs_view(pieces@).subrange(0, 0) =~= Seq::<Seq<char>>::empty());
            }
        }
        if i > 0 {
            out.append(sep);
        }
        out.append(pieces[i].as_str());
        i += 1;
    }
    proof {
        assert(strs_view(pieces@).subrange(0, pieces@.len() as int) =~= strs_view(pieces@));
    }
    out
}

/// The 1-based positional placeholder `$k`.
pub open spec fn dollar_text(k: int) -> Seq<char>
    recommends
        k >= 0,
{
    seq!['$'] + dec_text(k as nat)
}

/// The comma-joined placeholders `$1` to `$n`.
pub open spec fn placeholders_text(n: int) -> Seq<char>
    decreases n,
{
    if n <= 0 {
        Seq::empty()
    } else if n == 1 {
        dollar_text(1)
    } else {
        placeholders_text(n - 1) + seq![','] + dollar_text(n)
    }
}

/// Builds `$k`.
fn dollar_string(k: usize) -> (r: String)
    ensures
        r@ == dollar_text(k as int),
{
    let mut out = String::new();
    crate::text::push_char(&mut out, '$');
    let digits = crate::num::u128_to_string(k as u128);
    let r = out.concat(digits.as_str());
    proof {
        assert(r@ =~= dollar_text(k as int));
    }
    r
}

/// Builds `$1,...,$n`, per `placeholders_text`.
fn placeholders_string(n: usize) -> (r: String)
    ensures
        r@ == placeholders_text(n as int),
{
    let mut out = String::new();
    let mut c: usize = 0;
    while c < n
        invariant
            c <= n,
            out@ == placeholders_text(c as int),
        decreases n - c,
    {
        if c > 0 {
            crate::text::push_char(&mut out, ',');
        }
        let piece = dollar_string(c + 1);
        out.append(piece.as_str());
        c += 1;
    }
    out
}

/// The model of a `PsqlUpdatesFormatter`.
#[verifier::ext_equal]
pub struct PsqlUpdatesFormatterS {
    pub table_name: Seq<char>,
    pub value_field_names: Seq<Seq<char>>,
}

/// The per-event SQL formatter: one INSERT statement per event, with
/// 1-based positional placeholders; the typed values ride along for the
/// transport to bind.
#[derive(Debug, PartialEq, Eq)]
pub struct PsqlUpdatesFormatter {
    pub table_name: String,
    pub value_field_names: Vec<String>,
}

impl View for PsqlUpdatesFormatter {
    type V = PsqlUpdatesFormatterS;

    open spec fn view(&self) -> PsqlUpdatesFormatterS {
        PsqlUpdatesFormatterS {
            table_name: self.table_name@,
            value_field_names: names_view(self.value_field_names@),
        }
    }
}

/// The INSERT statement for one event.
pub open spec fn psql_updates_text(
    p: PsqlUpdatesFormatterS,
    time: u64,
    diff: i64,
) -> Seq<char> {
    "INSERT INTO "@ + p.table_name + " ("@ + texts_joined(p.value_field_names, ","@)
        + ",time,diff) VALUES ("@ + placeholders_text(p.value_field_names.len() as int) + ","@
        + dec_text(time as nat) + ","@ + int_text(diff as int) + ")\n"@
}

impl PsqlUpdatesFormatter {
    /// Builds the formatter.
    pub fn new(table_name: String, value_field_names: Vec<String>) -> (r: PsqlUpdatesFormatter)
        ensures
            r@ == (PsqlUpdatesFormatterS {
                table_name: table_name@,
                value_field_names: names_view(value_field_names@),
            }),
    {
        PsqlUpdatesFormatter { table_name, value_field_names }
    }
}

impl Formatter for PsqlUpdatesFormatter {
    open spec fn wf(&self) -> bool {
        true
    }

    /// A wrong-width row fails; otherwise one payload holds the INSERT
    /// statement and the typed values ride along.
    open spec fn format_post(
        &self,
        pre: &Self,
        key: Key,
        values: Seq<ValueS>,
        time: u64,
        diff: i64,
        r: &Result<FormatterContext, FormatterError>,
    ) -> bool {
        &&& *self == *pre
        &&& if values.len() != pre@.value_field_names.len() {
            *r matches Err(e) && e@ == crate::errors::FormatterErrorS::ColumnsValuesCountMismatch
        } else {
            *r matches Ok(ctx) && ctx@ == (FormatterContextS {
                payloads: seq![encode_utf8(psql_updates_text(pre@, time, diff))],
                key: key.id,
                values,
                time,
                diff,
            })
        }
    }

    fn format(&mut self, key: &Key, values: &Vec<Value>, time: u64, diff: i64) -> (r: Result<
        FormatterContext,
        FormatterError,
    >) {
        proof {
            crate::value::lemma_value_view_seq(values@);
        }
        if values.len() != self.value_field_names.len() {
            return Err(FormatterError::ColumnsValuesCountMismatch);
        }
        let mut text = String::from_str("INSERT INTO ");
        text.append(self.table_name.as_str());
        text.append(" (");
        let cols = join_with(&self.value_field_names, ",");
        proof {
            assert(strs_view(self.value_field_names@) == self@.value_field_names);
        }
        text.append(cols.as_str());
        text.append(",time,diff) VALUES (");
        let ph = placeholders_string(values.len());
        text.append(ph.as_str());
        text.append(",");
        let ts = crate::num::u64_to_string(time);
        text.append(ts.as_str());
        text.append(",");
        let ds = crate::num::i64_to_string(diff);
        text.append(ds.as_str());
        text.append(")\n");
        proof {
            assert(cols@ == texts_joined(self@.value_field_names, ","@));
            assert(ph@ == placeholders_text(self@.value_field_names.len() as int));
            assert(text@ =~= psql_updates_text(self@, time, diff));
        }
        let payload = string_bytes(&text);
        let carried = clone_values(values);
        let ctx = FormatterContext::new_single_payload(payload, *key, carried, time, diff);
        Ok(ctx)
    }
}

/// Whether `x` occurs among `names`.
pub open spec fn name_among(names: Seq<Seq<char>>, x: Seq<char>) -> bool {
    exists|i: int| 0 <= i < names.len() && names[i] == x
}

/// Whether `names` holds no name twice.
pub open spec fn names_unique(names: Seq<Seq<char>>) -> bool {
    forall|i: int, j: int| 0 <= i < j < names.len() ==> names[i] != names[j]
}

/// The model of a `PsqlSnapshotFormatter`.
#[verifier::ext_equal]
pub struct PsqlSnapshotFormatterS {
    pub table_name: Seq<char>,
    pub key_field_names: Seq<Seq<char>>,
    pub value_field_names: Seq<Seq<char>>,
    pub key_field_positions: Seq<int>,
    pub value_field_positions: Seq<int>,
    pub custom_expressions: Seq<(Seq<char>, Seq<char>)>,
}

/// The snapshot SQL formatter: one UPSERT statement per event, updating on
/// key equality when the stored row is older (or a deletion at the same
/// time).
#[derive(Debug, PartialEq, Eq)]
pub struct PsqlSnapshotFormatter {
    pub table_name: String,
    pub key_field_names: Vec<String>,
    pub value_field_names: Vec<String>,
    pub key_field_positions: Vec<usize>,
    pub value_field_positions: Vec<usize>,
    pub custom_expressions: StrMap,
}

/// The models of a position vector.
pub open spec fn positions_view(v: Seq<usize>) -> Seq<int> {
    v.map_values(|x: usize| x as int)
}

impl View for PsqlSnapshotFormatter {
    type V = PsqlSnapshotFormatterS;

    open spec fn view(&self) -> PsqlSnapshotFormatterS {
        PsqlSnapshotFormatterS {
            table_name: self.table_name@,
            key_field_names: names_view(self.key_field_names@),
            value_field_names: names_view(self.value_field_names@),
            key_field_positions: positions_view(self.key_field_positions@),
            value_field_positions: positions_view(self.value_field_positions@),
            custom_expressions: self.custom_expressions@,
        }
    }
}

/// Whether the stored positions are exactly the ascending enumeration of
/// the value columns selected by `sel`, and in range.
pub open spec fn positions_enumerate(
    positions: Seq<int>,
    n: int,
    names: Seq<Seq<char>>,
    keys: Seq<Seq<char>>,
    selected: bool,
) -> bool {
    &&& (forall|a: int, b: int| 0 <= a < b < positions.len() ==> positions[a] < positions[b])
    &&& (forall|a: int| 0 <= a < positions.len() ==> 0 <= #[trigger] positions[a] < n)
    &&& (forall|q: int| 0 <= q < n ==> (positions.contains(q) <==> (name_among(keys, names[q])
        == selected)))
}

impl PsqlSnapshotFormatter {
    /// The configuration invariant: every stored key position points at a
    /// value column whose name is a key name, ascending; the other columns
    /// make up the value positions.
    pub open spec fn wf_spec(p: PsqlSnapshotFormatterS) -> bool {
        let n = p.value_field_names.len() as int;
        &&& positions_enumerate(p.key_field_positions, n, p.value_field_names, p.key_field_names, true)
        &&& positions_enumerate(
            p.value_field_positions,
            n,
            p.value_field_names,
            p.key_field_names,
            false,
        )
    }

    /// Builds the snapshot formatter. Construction fails on a repeated
    /// value column name, and on a key name that is not a value column name
    /// (or is itself repeated among the key names); otherwise the key and
    /// non-key column positions are computed once, in ascending order.
    pub fn new(
        table_name: String,
        key_field_names: Vec<String>,
        value_field_names: Vec<String>,
        custom_expressions: Option<StrMap>,
    ) -> (r: Result<PsqlSnapshotFormatter, PsqlSnapshotFormatterError>)
        ensures
            ({
                let keys = names_view(key_field_names@);
                let names = names_view(value_field_names@);
                match r {
                    Ok(p) => {
                        &&& names_unique(names)
                        &&& names_unique(keys)
                        &&& forall|k: int| 0 <= k < keys.len() ==> name_among(
                            names,
                            #[trigger] keys[k],
                        )
                        &&& Self::wf_spec(p@)
                        &&& p@.table_name == table_name@
                        &&& p@.key_field_names == keys
                        &&& p@.value_field_names == names
                        &&& p@.custom_expressions == match custom_expressions {
                            Some(m) => strmap_view(m),
                            None => Seq::<(Seq<char>, Seq<char>)>::empty(),
                        }
                    },
                    Err(e) => match e@ {
                        crate::errors::PsqlSnapshotFormatterErrorS::RepeatedValueField(x) =>
                            !names_unique(names) && name_among(names, x),
                        crate::errors::PsqlSnapshotFormatterErrorS::UnknownKey(x) => name_among(
                            keys,
                            x,
                        ) && (!name_among(names, x) || !names_unique(keys)),
                    },
                }
            }),
    {
        let ghost keys = names_view(key_field_names@);
        let ghost names = names_view(value_field_names@);
        // Reject a repeated value column name.
        let mut i: usize = 0;
        while i < value_field_names.len()
            invariant
                names == names_view(value_field_names@),
                i <= value_field_names@.len(),
                forall|a: int, b: int| 0 <= a < b < i ==> names[a] != names[b],
            decreases value_field_names@.len() - i,
        {
            let mut j: usize = 0;
            while j < i
                invariant
                    names == names_view(value_field_names@),
                    j <= i < value_field_names@.len(),
                    forall|b: int| 0 <= b < j ==> names[b] != names[i as int],
                decreases i - j,
            {
                if crate::text::str_eq(
                    value_field_names[j].as_str(),
                    value_field_names[i].as_str(),
                ) {
                    proof {
                        assert(names[j as int] == names[i as int]);
                        assert(!names_unique(names));
                        assert(name_among(names, names[i as int]));
                    }
                    return Err(PsqlSnapshotFormatterError::RepeatedValueField(
                        value_field_names[i].clone(),
                    ));
                }
                j += 1;
            }
            i += 1;
        }
        proof {
            assert(names_unique(names));
        }
        // Every key name must be a value column name, and no key name may
        // repeat.
        let mut k: usize = 0;
        while k < key_field_names.len()
            invariant
                keys == names_view(key_field_names@),
                names == names_view(value_field_names@),
                k <= key_field_names@.len(),
                forall|a: int| 0 <= a < k ==> name_among(names, #[trigger] keys[a]),
                forall|a: int, b: int| 0 <= a < b < k ==> keys[a] != keys[b],
            decreases key_field_names@.len() - k,
        {
            let mut found = false;
            let mut q: usize = 0;
            while q < value_field_names.len()
                invariant
                    keys == names_view(key_field_names@),
                    names == names_view(value_field_names@),
                    k < key_field_names@.len(),
                    q <= value_field_names@.len(),
                    found ==> name_among(names, keys[k as int]),
                    !found ==> forall|b: int| 0 <= b < q ==> names[b] != keys[k as int],
                decreases value_field_names@.len() - q,
            {
                if crate::text::str_eq(
                    value_field_names[q].as_str(),
                    key_field_names[k].as_str(),
                ) {
                    found = true;
                    proof {
                        assert(names[q as int] == keys[k as int]);
                    }
                }
                q += 1;
            }
            if !found {
                proof {
                    assert(!name_among(names, keys[k as int])) by {
                        if name_among(names, keys[k as int]) {
                            let w = choose|w: int|
                                0 <= w < names.len() && names[w] == keys[k as int];
                            assert(names[w] != keys[k as int]);
                        }
                    }
                    assert(name_among(keys, keys[k as int]));
                }
                return Err(PsqlSnapshotFormatterError::UnknownKey(key_field_names[k].clone()));
            }
            let mut d: usize = 0;
            while d < k
                invariant
                    keys == names_view(key_field_names@),
                    d <= k < key_field_names@.len(),
                    forall|b: int| 0 <= b < d ==> keys[b] != keys[k as int],
                decreases k - d,
            {
                if crate::text::str_eq(key_field_names[d].as_str(), key_field_names[k].as_str()) {
                    proof {
                        assert(keys[d as int] == keys[k as int]);
                        assert(!names_unique(keys));
                        assert(name_among(keys, keys[k as int]));
                    }
                    return Err(PsqlSnapshotFormatterError::UnknownKey(
                        key_field_names[k].clone(),
                    ));
                }
                d += 1;
            }
            k += 1;
        }
        proof {
            assert(names_unique(keys));
        }
        // Enumerate the key and non-key positions, in ascending order.
        let mut key_positions: Vec<usize> = Vec::new();
        let mut value_positions: Vec<usize> = Vec::new();
        let mut p: usize = 0;
        while p < value_field_names.len()
            invariant
                keys == names_view(key_field_names@),
                names == names_view(value_field_names@),
                p <= value_field_names@.len(),
                forall|a: int, b: int| 0 <= a < b < positions_view(key_positions@).len()
                    ==> positions_view(key_positions@)[a] < positions_view(key_positions@)[b],
                forall|a: int| 0 <= a < positions_view(key_positions@).len() ==> 0
                    <= #[trigger] positions_view(key_positions@)[a] < p,
                forall|a: int, b: int| 0 <= a < b < positions_view(value_positions@).len()
                    ==> positions_view(value_positions@)[a] < positions_view(value_positions@)[b],
                forall|a: int| 0 <= a < positions_view(value_positions@).len() ==> 0
                    <= #[trigger] positions_view(value_positions@)[a] < p,
                forall|q: int| 0 <= q < p ==> (positions_view(key_positions@).contains(q) <==> name_among(
                    keys,
                    names[q],
                )),
                forall|q: int| 0 <= q < p ==> (positions_view(value_positions@).contains(q)
                    <==> !name_among(keys, names[q])),
            decreases value_field_names@.len() - p,
        {
            let mut among = false;
            let mut q: usize = 0;
            while q < key_field_names.len()
                invariant
                    keys == names_view(key_field_names@),
                    names == names_view(value_field_names@),
                    p < value_field_names@.len(),
                    q <= key_field_names@.len(),
                    among ==> name_among(keys, names[p as int]),
                    !among ==> forall|b: int| 0 <= b < q ==> keys[b] != names[p as int],
                decreases key_field_names@.len() - q,
            {
                if crate::text::str_eq(key_field_names[q].as_str(), value_field_names[p].as_str())
                {
                    among = true;
                    proof {
                        assert(keys[q as int] == names[p as int]);
                    }
                }
                q += 1;
            }
            proof {
                if !among {
                    assert(!name_among(keys, names[p as int])) by {
                        if name_among(keys, names[p as int]) {
                            let w = choose|w: int|
                                0 <= w < keys.len() && keys[w] == names[p as int];
                            assert(keys[w] != names[p as int]);
                        }
                    }
                }
            }
            let ghost kp0 = positions_view(key_positions@);
            let ghost vp0 = positions_view(value_positions@);
            if among {
                key_positions.push(p);
            } else {
                value_positions.push(p);
            }
            proof {
                let kp1 = positions_view(key_positions@);
                let vp1 = positions_view(value_positions@);
                if among {
                    assert(kp1 =~= kp0.push(p as int));
                    assert(vp1 == vp0);
                } else {
                    assert(vp1 =~= vp0.push(p as int));
                    assert(kp1 == kp0);
                }
                assert forall|q: int| 0 <= q < p + 1 implies (kp1.contains(q) <==> name_among(
                    keys,
                    names[q],
                )) by {
                    lemma_push_contains(kp0, p as int, q, among);
                    if q < p {
                        assert(kp0.contains(q) <==> name_among(keys, names[q]));
                    }
                }
                assert forall|q: int| 0 <= q < p + 1 implies (vp1.contains(q) <==> !name_among(
                    keys,
                    names[q],
                )) by {
                    lemma_push_contains(vp0, p as int, q, !among);
                    if q < p {
                        assert(vp0.contains(q) <==> !name_among(keys, names[q]));
                    }
                }
            }
            p += 1;
        }
        let r = PsqlSnapshotFormatter {
            table_name,
            key_field_names,
            value_field_names,
            key_field_positions: key_positions,
            value_field_positions: value_positions,
            custom_expressions: match custom_expressions {
                Some(m) => m,
                None => StrMap::empty(),
            },
        };
        Ok(r)
    }
}

/// How membership changes when one position is pushed (or not).
proof fn lemma_push_contains(ps: Seq<int>, p: int, q: int, pushed: bool)
    requires
        forall|a: int| 0 <= a < ps.len() ==> #[trigger] ps[a] < p,
    ensures
        pushed ==> (ps.push(p).contains(q) <==> (ps.contains(q) || q == p)),
        !pushed ==> (ps.contains(q) ==> q != p),
{
    if pushed {
        if ps.push(p).contains(q) {
            let w = choose|w: int| 0 <= w < ps.push(p).len() && ps.push(p)[w] == q;
            if w < ps.len() {
                assert(ps[w] == q);
            }
        }
        if ps.contains(q) {
            let w = choose|w: int| 0 <= w < ps.len() && ps[w] == q;
            assert(ps.push(p)[w] == q);
        }
        if q == p {
            assert(ps.push(p)[ps.len() as int] == q);
        }
    } else {
        if ps.contains(q) {
            let w = choose|w: int| 0 <= w < ps.len() && ps[w] == q;
            assert(ps[w] < p);
        }
    }
}

/// One key-equality conjunct of the update condition.
pub open spec fn cond_piece(p: PsqlSnapshotFormatterS, a: int) -> Seq<char> {
    p.table_name + "."@ + p.value_field_names[p.key_field_positions[a]] + "="@ + dollar_text(
        p.key_field_positions[a] + 1,
    )
}

/// The conjuncts of the update condition, in key-position order.
pub open spec fn cond_pieces(p: PsqlSnapshotFormatterS) -> Seq<Seq<char>> {
    Seq::new(p.key_field_positions.len(), |a: int| cond_piece(p, a))
}

/// One `name=excluded.name` pair.
pub open spec fn pair_piece(name: Seq<char>) -> Seq<char> {
    name + "=excluded."@ + name
}

/// The pairs of the conflict update, one per value column.
pub open spec fn pair_pieces(p: PsqlSnapshotFormatterS) -> Seq<Seq<char>> {
    Seq::new(p.value_field_names.len(), |a: int| pair_piece(p.value_field_names[a]))
}

/// The inserted value for 1-based position `k`: the column's expression
/// override with every `$?` replaced by `$k`, or plain `$k`.
pub open spec fn insert_piece(p: PsqlSnapshotFormatterS, k: int) -> Seq<char> {
    match strmap_get(p.custom_expressions, p.value_field_names[k - 1]) {
        Some(expr) => texts_joined(split_sub_text(expr, "$?"@), dollar_text(k)),
        None => dollar_text(k),
    }
}

/// The inserted values, in column order.
pub open spec fn insert_pieces(p: PsqlSnapshotFormatterS) -> Seq<Seq<char>> {
    Seq::new(p.value_field_names.len(), |a: int| insert_piece(p, a + 1))
}

/// The UPSERT statement for one event.
pub open spec fn psql_snapshot_text(p: PsqlSnapshotFormatterS, time: u64, diff: i64) -> Seq<
    char,
> {
    "INSERT INTO "@ + p.table_name + " ("@ + texts_joined(p.value_field_names, ","@)
        + ", time, diff)VALUES ("@ + texts_joined(insert_pieces(p), ","@) + ", "@ + dec_text(
        time as nat,
    ) + ", "@ + int_text(diff as int) + ")ON CONFLICT DO UPDATE SET "@ + texts_joined(
        pair_pieces(p),
        ","@,
    ) + ", time="@ + dec_text(time as nat) + ", diff="@ + int_text(diff as int)
        + "\n            WHERE "@ + texts_joined(cond_pieces(p), " AND "@) + " AND ("@
        + p.table_name + ".time<"@ + dec_text(time as nat) + " OR ("@ + p.table_name + ".time="@
        + dec_text(time as nat) + " AND "@ + p.table_name + ".diff=-1))\n            \n"@
}

impl Formatter for PsqlSnapshotFormatter {
    open spec fn wf(&self) -> bool {
        PsqlSnapshotFormatter::wf_spec(self@)
    }

    /// A wrong-width row fails; otherwise one payload holds the UPSERT
    /// statement and the typed values ride along.
    open spec fn format_post(
        &self,
        pre: &Self,
        key: Key,
        values: Seq<ValueS>,
        time: u64,
        diff: i64,
        r: &Result<FormatterContext, FormatterError>,
    ) -> bool {
        &&& *self == *pre
        &&& if values.len() != pre@.value_field_names.len() {
            *r matches Err(e) && e@ == crate::errors::FormatterErrorS::ColumnsValuesCountMismatch
        } else {
            *r matches Ok(ctx) && ctx@ == (FormatterContextS {
                payloads: seq![encode_utf8(psql_snapshot_text(pre@, time, diff))],
                key: key.id,
                values,
                time,
                diff,
            })
        }
    }

    fn format(&mut self, key: &Key, values: &Vec<Value>, time: u64, diff: i64) -> (r: Result<
        FormatterContext,
        FormatterError,
    >) {
        proof {
            crate::value::lemma_value_view_seq(values@);
        }
        if values.len() != self.value_field_names.len() {
            return Err(FormatterError::ColumnsValuesCountMismatch);
        }
        // The update condition over the key positions.
        let mut cond: Vec<String> = Vec::new();
        let mut a: usize = 0;
        while a < self.key_field_positions.len()
            invariant
                PsqlSnapshotFormatter::wf_spec(self@),
                a <= self.key_field_positions@.len(),
                cond@.len() == a,
                forall|b: int| 0 <= b < a ==> (#[trigger] cond@[b])@ == cond_piece(self@, b),
            decreases self.key_field_positions@.len() - a,
        {
            proof {
                assert(self@.key_field_positions == positions_view(self.key_field_positions@));
                assert(self@.value_field_names == names_view(self.value_field_names@));
                assert(self@.table_name == self.table_name@);
                assert(positions_view(self.key_field_positions@)[a as int]
                    == self.key_field_positions@[a as int] as int);
                assert(0 <= self@.key_field_positions[a as int] < self@.value_field_names.len());
                assert(names_view(self.value_field_names@)[self@.key_field_positions[a as int]]
                    == self.value_field_names@[self@.key_field_positions[a as int]]@);
            }
            let nn = self.value_field_names.len();
            proof {
                assert(nn == self@.value_field_names.len());
            }
            let pos = self.key_field_positions[a];
            let mut piece = String::new();
            piece.append(self.table_name.as_str());
            piece.append(".");
            piece.append(self.value_field_names[pos].as_str());
            piece.append("=");
            let d = dollar_string(pos + 1);
            piece.append(d.as_str());
            proof {
                assert(piece@ =~= cond_piece(self@, a as int));
            }
            cond.push(piece);
            a += 1;
        }
        let update_condition = join_with(&cond, " AND ");
        proof {
            assert(strs_view(cond@) =~= cond_pieces(self@));
        }
        // The conflict-update pairs over every value column.
        let mut pairs: Vec<String> = Vec::new();
        let mut b: usize = 0;
        while b < self.value_field_names.len()
            invariant
                b <= self.value_field_names@.len(),
                pairs@.len() == b,
                forall|c: int| 0 <= c < b ==> (#[trigger] pairs@[c])@ == pair_piece(
                    names_view(self.value_field_names@)[c],
                ),
            decreases self.value_field_names@.len() - b,
        {
            proof {
                assert(names_view(self.value_field_names@)[b as int]
                    == self.value_field_names@[b as int]@);
            }
            let mut piece = String::new();
            piece.append(self.value_field_names[b].as_str());
            piece.append("=excluded.");
            piece.append(self.value_field_names[b].as_str());
            proof {
                assert(piece@ =~= pair_piece(names_view(self.value_field_names@)[b as int]));
            }
            pairs.push(piece);
            b += 1;
        }
        let update_pairs = join_with(&pairs, ",");
        proof {
            assert(strs_view(pairs@) =~= pair_pieces(self@));
        }
        // The inserted values, with per-column expression overrides.
        let mut ins: Vec<String> = Vec::new();
        let mut x0: usize = 0;
        while x0 < self.value_field_names.len()
            invariant
                x0 <= self.value_field_names@.len(),
                ins@.len() == x0,
                forall|c: int| 0 <= c < x0 ==> (#[trigger] ins@[c])@ == insert_piece(
                    self@,
                    c + 1,
                ),
            decreases self.value_field_names@.len() - x0,
        {
            proof {
                assert(self@.custom_expressions == strmap_view(self.custom_expressions));
                assert(self@.value_field_names == names_view(self.value_field_names@));
                assert(names_view(self.value_field_names@)[x0 as int]
                    == self.value_field_names@[x0 as int]@);
            }
            let d = dollar_string(x0 + 1);
            let piece: String = match self.custom_expressions.get(
                self.value_field_names[x0].as_str(),
            ) {
                Some(expr) => {
                    let echars = str_chars(expr.as_str());
                    let pat = str_chars("$?");
                    proof {
                        reveal_strlit("$?");
                        assert(pat@.len() == 2);
                    }
                    let parts = split_on_str(&echars, &pat);
                    let joined = join_with(&parts, d.as_str());
                    proof {
                        assert(strs_view(parts@) =~= split_sub_text(expr@, "$?"@));
                    }
                    joined
                },
                None => d,
            };
            proof {
                assert(piece@ == insert_piece(self@, x0 as int + 1));
            }
            ins.push(piece);
            x0 += 1;
        }
        let insert_values = join_with(&ins, ",");
        proof {
            assert(strs_view(ins@) =~= insert_pieces(self@));
        }
        let cols = join_with(&self.value_field_names, ",");
        proof {
            assert(strs_view(self.value_field_names@) == self@.value_field_names);
        }
        let ts = crate::num::u64_to_string(time);
        let ds = crate::num::i64_to_string(diff);
        let mut text = String::from_str("INSERT INTO ");
        text.append(self.table_name.as_str());
        text.append(" (");
        text.append(cols.as_str());
        text.append(", time, diff)VALUES (");
        text.append(insert_values.as_str());
        text.append(", ");
        text.append(ts.as_str());
        text.append(", ");
        text.append(ds.as_str());
        text.append(")ON CONFLICT DO UPDATE SET ");
        text.append(update_pairs.as_str());
        text.append(", time=");
        text.append(ts.as_str());
        text.append(", diff=");
        text.append(ds.as_str());
        text.append("\n            WHERE ");
        text.append(update_condition.as_str());
        text.append(" AND (");
        text.append(self.table_name.as_str());
        text.append(".time<");
        text.append(ts.as_str());
        text.append(" OR (");
        text.append(self.table_name.as_str());
        text.append(".time=");
        text.append(ts.as_str());
        text.append(" AND ");
        text.append(self.table_name.as_str());
        text.append(".diff=-1))\n            \n");
        proof {
            assert(text@ =~= psql_snapshot_text(self@, time, diff));
        }
        let payload = string_bytes(&text);
        let carried = clone_values(values);
        let ctx = FormatterContext::new_single_payload(payload, *key, carried, time, diff);
        Ok(ctx)
    }
}

} // verus!
