//! What the functions of the query language give for each kind of value.
use crate::executor::{ContextView, ExecutorView};
use crate::functions::{
    augmented, bool_result, coalesced, decimal_result, filename_cell, int_result, is_meta_function,
    is_null, lineno_cell, location_cell, location_meta, looked_up, meta_cell, meta_result,
    parsed_decimal_result, str_result, word_result,
};
use crate::ledger::LocationView;
use crate::metadata::MetaValueView;
use crate::number::{parsed_decimal, NumberView};
use crate::render::{inventory_text, position_text};
use crate::text::{int_text, parse_i64_text, uppercase};
use crate::value::{QueryErrorView, ValueView};
use vstd::arithmetic::power::pow;
use vstd::prelude::*;

verus! {

/// The columns of a place: the file name, the line number as far as an `i64` holds it, and both
/// with a colon between them; `NULL` where there is no place.
pub proof fn law_place_columns(loc: Option<LocationView>)
    ensures
        loc is None ==> filename_cell(loc) is Null && lineno_cell(loc) is Null && location_cell(
            loc,
        ) is Null,
        loc matches Some(l) ==> {
            let line: int = if l.lineno <= i64::MAX {
                l.lineno as int
            } else {
                i64::MAX as int
            };
            &&& filename_cell(loc) == ValueView::String(l.filename)
            &&& lineno_cell(loc) == ValueView::Integer(line as i64)
            &&& location_cell(loc) == ValueView::String(l.filename + ":"@ + int_text(line))
        },
{
}

/// What is found under a key: what the metadata have there, or else the file name or the line
/// number of the place under the keys of these names. A line number is an integer as far as an
/// `i64` holds it, and a decimal number beyond.
pub open spec fn is_found(
    raw: Map<Seq<char>, MetaValueView>,
    loc: Option<LocationView>,
    key: Seq<char>,
    found: Option<MetaValueView>,
) -> bool {
    if raw.contains_key(key) {
        found == Some(raw[key])
    } else if loc is Some && key == "filename"@ {
        found == Some(MetaValueView::String(loc->0.filename))
    } else if loc is Some && key == "lineno"@ {
        if loc->0.lineno <= i64::MAX {
            found == Some(MetaValueView::Int(loc->0.lineno as i64))
        } else {
            found == Some(
                MetaValueView::Number(
                    NumberView { negative: false, magnitude: loc->0.lineno, scale: 0 },
                ),
            )
        }
    } else {
        found is None
    }
}

/// What a lookup finds, in the metadata and the place, in the place alone, and in the metadata
/// that the place was put into.
pub proof fn law_lookup_finds(
    raw: Map<Seq<char>, MetaValueView>,
    loc: Option<LocationView>,
    key: Seq<char>,
)
    ensures
        is_found(raw, loc, key, looked_up(raw, loc, key)),
        is_found(Map::empty(), loc, key, location_meta(loc, key)),
        augmented(raw, loc).contains_key(key) ==> is_found(
            raw,
            loc,
            key,
            Some(augmented(raw, loc)[key]),
        ),
        !augmented(raw, loc).contains_key(key) ==> is_found(raw, loc, key, None),
{
    reveal_strlit("filename");
    reveal_strlit("lineno");
    assert("filename"@.len() != "lineno"@.len());
}

/// Whether a query value is that of a metadata value: strings, numbers, integers, dates, truth
/// values and amounts stay what they are, accounts, currencies, tags and links are strings, and
/// the empty value is `NULL`.
pub open spec fn is_value_of(value: ValueView, meta: MetaValueView) -> bool {
    match meta {
        MetaValueView::String(s) => value == ValueView::String(s),
        MetaValueView::Number(n) => value == ValueView::Number(n),
        MetaValueView::Int(i) => value == ValueView::Integer(i),
        MetaValueView::Date(d) => value == ValueView::Date(d),
        MetaValueView::Bool(b) => value == ValueView::Boolean(b),
        MetaValueView::Amount(a) => value == ValueView::Amount(a),
        MetaValueView::Account(s) => value == ValueView::String(s),
        MetaValueView::Currency(s) => value == ValueView::String(s),
        MetaValueView::Tag(s) => value == ValueView::String(s),
        MetaValueView::Link(s) => value == ValueView::String(s),
        MetaValueView::Empty => value is Null,
    }
}

/// A metadata value as a query value is `NULL` exactly where there is none or it is the empty
/// one; every other value is shown, both truth values among them.
pub proof fn law_metadata_values(found: Option<MetaValueView>)
    ensures
        meta_cell(found) is Null <==> found is None || found->0 is Empty,
        found is Some ==> is_value_of(meta_cell(found), found->0),
{
}

/// Two different values of the same kind are shown as different values.
pub proof fn law_metadata_values_stay_apart(a: MetaValueView, b: MetaValueView)
    requires
        a != b,
        a is String && b is String || a is Number && b is Number || a is Int && b is Int || a is Date
            && b is Date || a is Bool && b is Bool || a is Amount && b is Amount || a is Account
            && b is Account || a is Currency && b is Currency || a is Tag && b is Tag || a is Link
            && b is Link,
    ensures
        meta_cell(Some(a)) != meta_cell(Some(b)),
{
}

/// The place of the directive of a posting.
pub open spec fn entry_place(executor: ExecutorView, ctx: ContextView) -> Option<LocationView> {
    if ctx.directive_index is Some && ctx.directive_index->0 < executor.locations.len() {
        executor.locations[ctx.directive_index->0 as int]
    } else {
        None
    }
}

/// The place of a posting: its own, or else that of its directive.
pub open spec fn own_place(executor: ExecutorView, ctx: ContextView) -> Option<LocationView> {
    let posting = ctx.transaction.postings[ctx.posting_index as int];
    if posting.location is Some {
        posting.location
    } else {
        entry_place(executor, ctx)
    }
}

/// Where a directive, the directive of a posting, and a posting stand.
pub proof fn law_places(executor: ExecutorView, ctx: ContextView, index: nat)
    ensures
        executor.location(index) == if index < executor.locations.len() {
            executor.locations[index as int]
        } else {
            None
        },
        executor.entry_location(ctx) == entry_place(executor, ctx),
        executor.posting_location(ctx) == own_place(executor, ctx),
{
}

/// A metadata function on a key: `META` and `POSTING_META` give what is found in the posting
/// and its place, `ENTRY_META` what is found in the transaction and its place, `ANY_META` what
/// is found in the posting or else in the transaction, each as a query value, and `NULL` where
/// nothing is found.
pub proof fn law_metadata_functions(executor: ExecutorView, ctx: ContextView, key: Seq<char>)
    ensures
        ({
            let argument = Ok::<ValueView, QueryErrorView>(ValueView::String(key));
            let meta = meta_result(executor, "META"@, ctx, argument);
            let posting_meta = meta_result(executor, "POSTING_META"@, ctx, argument);
            let entry_meta = meta_result(executor, "ENTRY_META"@, ctx, argument);
            let any_meta = meta_result(executor, "ANY_META"@, ctx, argument);
            let raw = ctx.transaction.postings[ctx.posting_index as int].meta;
            let parent = ctx.transaction.meta;
            let place = own_place(executor, ctx);
            let parent_place = entry_place(executor, ctx);
            &&& posting_meta == meta
            &&& forall|found: Option<MetaValueView>| #[trigger]
                is_found(raw, place, key, found) ==> {
                    &&& meta is Ok
                    &&& found is None ==> meta->Ok_0 is Null
                    &&& found is Some ==> is_value_of(meta->Ok_0, found->0)
                }
            &&& forall|found: Option<MetaValueView>| #[trigger]
                is_found(parent, parent_place, key, found) ==> {
                    &&& entry_meta is Ok
                    &&& found is None ==> entry_meta->Ok_0 is Null
                    &&& found is Some ==> is_value_of(entry_meta->Ok_0, found->0)
                }
            &&& any_meta == if is_found(raw, place, key, None) {
                entry_meta
            } else {
                meta
            }
        }),
{
    reveal_strlit("META");
    reveal_strlit("POSTING_META");
    reveal_strlit("ENTRY_META");
    reveal_strlit("ANY_META");
    assert("ENTRY_META"@.len() == 10 && "META"@.len() == 4 && "POSTING_META"@.len() == 12
        && "ANY_META"@.len() == 8);
    let raw = ctx.transaction.postings[ctx.posting_index as int].meta;
    law_lookup_finds(raw, own_place(executor, ctx), key);
    law_lookup_finds(ctx.transaction.meta, entry_place(executor, ctx), key);
    law_places(executor, ctx, 0);
    law_metadata_values(looked_up(raw, own_place(executor, ctx), key));
    law_metadata_values(looked_up(ctx.transaction.meta, entry_place(executor, ctx), key));
}

/// There are four metadata functions, and on an argument that is no string they fail with a
/// message that names the function; an error of the argument is passed on.
pub proof fn law_metadata_function_errors(
    executor: ExecutorView,
    name: Seq<char>,
    ctx: ContextView,
    argument: Result<ValueView, QueryErrorView>,
)
    ensures
        is_meta_function(name) <==> name == "META"@ || name == "POSTING_META"@ || name
            == "ENTRY_META"@ || name == "ANY_META"@,
        argument is Err ==> meta_result(executor, name, ctx, argument) == argument,
        argument is Ok && !(argument->Ok_0 is String) ==> meta_result(
            executor,
            name,
            ctx,
            argument,
        ) == Err::<ValueView, QueryErrorView>(
            QueryErrorView::Type(name + ": argument must be a string key"@),
        ),
{
}

/// `COALESCE` takes the first of its outcomes that is not the value `NULL`, be it a value or an
/// error, and is `NULL` where all of them are.
pub proof fn law_coalesce(outcomes: Seq<Result<ValueView, QueryErrorView>>)
    ensures
        forall|k: int|
            0 <= k < outcomes.len() && outcomes[k] != Ok::<ValueView, QueryErrorView>(
                ValueView::Null,
            ) && (forall|i: int|
                0 <= i < k ==> outcomes[i] == Ok::<ValueView, QueryErrorView>(ValueView::Null))
                ==> coalesced(outcomes) == #[trigger] outcomes[k],
        (forall|i: int|
            0 <= i < outcomes.len() ==> outcomes[i] == Ok::<ValueView, QueryErrorView>(
                ValueView::Null,
            )) ==> coalesced(outcomes) == Ok::<ValueView, QueryErrorView>(ValueView::Null),
        forall|outcome: Result<ValueView, QueryErrorView>| #[trigger]
            is_null(outcome) <==> outcome == Ok::<ValueView, QueryErrorView>(ValueView::Null),
    decreases outcomes.len(),
{
    if outcomes.len() > 0 {
        let rest = outcomes.skip(1);
        law_coalesce(rest);
        let null = Ok::<ValueView, QueryErrorView>(ValueView::Null);
        assert forall|k: int|
            0 <= k < outcomes.len() && outcomes[k] != null && (forall|i: int|
                0 <= i < k ==> outcomes[i] == null) implies coalesced(outcomes)
            == #[trigger] outcomes[k] by {
            if k > 0 {
                assert(outcomes[0] == null);
                assert(rest[k - 1] == outcomes[k]);
                assert forall|i: int| 0 <= i < k - 1 implies rest[i] == null by {
                    assert(outcomes[i + 1] == null);
                }
            }
        }
        if forall|i: int| 0 <= i < outcomes.len() ==> outcomes[i] == null {
            assert(outcomes[0] == null);
            assert forall|i: int| 0 <= i < rest.len() implies rest[i] == null by {
                assert(outcomes[i + 1] == null);
            }
        }
    }
}

/// `STR` on each kind of value.
pub proof fn law_str_of_each_kind(value: ValueView)
    ensures
        match value {
            ValueView::Null => str_result(value) == Ok::<ValueView, QueryErrorView>(ValueView::Null),
            ValueView::String(s) => str_result(value) == Ok::<ValueView, QueryErrorView>(value),
            ValueView::Integer(i) => str_result(value) == Ok::<ValueView, QueryErrorView>(
                ValueView::String(int_text(i as int)),
            ),
            ValueView::Number(n) => str_result(value) == Ok::<ValueView, QueryErrorView>(
                ValueView::String(n.text()),
            ),
            ValueView::Boolean(b) => str_result(value) == Ok::<ValueView, QueryErrorView>(
                if b {
                    ValueView::String("TRUE"@)
                } else {
                    ValueView::String("FALSE"@)
                },
            ),
            ValueView::Date(d) => str_result(value) == Ok::<ValueView, QueryErrorView>(
                ValueView::String(d.text()),
            ),
            ValueView::Amount(a) => str_result(value) == Ok::<ValueView, QueryErrorView>(
                ValueView::String(a.number.text() + " "@ + a.currency),
            ),
            ValueView::Position(p) => str_result(value) == Ok::<ValueView, QueryErrorView>(
                ValueView::String(position_text(p)),
            ),
            ValueView::Inventory(positions) => str_result(value) == Ok::<ValueView, QueryErrorView>(
                ValueView::String(inventory_text(positions)),
            ),
            _ => str_result(value) == Err::<ValueView, QueryErrorView>(
                QueryErrorView::Type(
                    "STR expects a string, integer, number, boolean, date, amount, position, or inventory"@,
                ),
            ),
        },
{
}

/// `INT` on each kind of value. Of a number it is the whole part, towards zero; it fails exactly
/// where an `i64` does not hold that, or where a string does not spell such an integer.
pub proof fn law_int_of_each_kind(value: ValueView)
    ensures
        value is Null ==> int_result(value) == Ok::<ValueView, QueryErrorView>(ValueView::Null),
        value is Integer ==> int_result(value) == Ok::<ValueView, QueryErrorView>(value),
        value matches ValueView::Boolean(b) ==> int_result(value) == Ok::<
            ValueView,
            QueryErrorView,
        >(
            if b {
                ValueView::Integer(1)
            } else {
                ValueView::Integer(0)
            },
        ),
        value matches ValueView::String(s) ==> int_result(value) == match parse_i64_text(s) {
            Some(i) => Ok::<ValueView, QueryErrorView>(ValueView::Integer(i)),
            None => Err(QueryErrorView::Type("INT: cannot parse '"@ + s + "' as integer"@)),
        },
        value matches ValueView::Number(n) ==> {
            let unit = pow(10, n.scale);
            let m = n.magnitude as int;
            &&& forall|q: int|
                0 <= q <= i64::MAX && #[trigger] (q * unit) <= m < q * unit + unit ==> int_result(
                    value,
                ) == Ok::<ValueView, QueryErrorView>(
                    if n.negative {
                        ValueView::Integer((-q) as i64)
                    } else {
                        ValueView::Integer(q as i64)
                    },
                )
            &&& !n.negative && m >= (i64::MAX + 1) * unit ==> int_result(value) == Err::<
                ValueView,
                QueryErrorView,
            >(QueryErrorView::Type("INT: cannot convert '"@ + n.text() + "' to integer"@))
            &&& n.negative && (i64::MAX + 1) * unit <= m < (i64::MAX + 2) * unit ==> int_result(value)
                == Ok::<ValueView, QueryErrorView>(ValueView::Integer(i64::MIN))
            &&& n.negative && m >= (i64::MAX + 2) * unit ==> int_result(value) == Err::<
                ValueView,
                QueryErrorView,
            >(QueryErrorView::Type("INT: cannot convert '"@ + n.text() + "' to integer"@))
        },
        value is Date || value is Amount || value is Position || value is Inventory || value
            is StringSet || value is Metadata || value is Entry ==> int_result(value) == Err::<
            ValueView,
            QueryErrorView,
        >(QueryErrorView::Type("INT expects a number, integer, boolean, or string"@)),
{
    if let ValueView::Number(n) = value {
        let unit = pow(10, n.scale);
        let m = n.magnitude as int;
        vstd::arithmetic::power::lemma_pow_positive(10, n.scale);
        assert forall|q: int| 0 <= q && #[trigger] (q * unit) <= m < q * unit + unit implies m / unit
            == q by {
            vstd::arithmetic::div_mod::lemma_fundamental_div_mod_converse(
                m,
                unit,
                q,
                m - q * unit,
            );
        }
        let top = i64::MAX as int + 1;
        if m >= top * unit {
            vstd::arithmetic::div_mod::lemma_div_is_ordered(top * unit, m, unit);
            vstd::arithmetic::div_mod::lemma_div_by_multiple(top, unit);
        }
        if m >= (top + 1) * unit {
            vstd::arithmetic::div_mod::lemma_div_is_ordered((top + 1) * unit, m, unit);
            vstd::arithmetic::div_mod::lemma_div_by_multiple(top + 1, unit);
        } else {
            assert((top + 1) * unit == top * unit + unit) by (nonlinear_arith);
            if m >= top * unit {
                assert(m / unit == top);
            }
        }
    }
}

/// `DECIMAL` on each kind of value.
pub proof fn law_decimal_of_each_kind(value: ValueView)
    ensures
        value is Null ==> decimal_result(value) == Ok::<ValueView, QueryErrorView>(ValueView::Null),
        value is Number ==> decimal_result(value) == Ok::<ValueView, QueryErrorView>(value),
        value matches ValueView::Integer(i) ==> decimal_result(value) == Ok::<
            ValueView,
            QueryErrorView,
        >(
            ValueView::Number(
                NumberView {
                    negative: i < 0,
                    magnitude: if i < 0 {
                        (-(i as int)) as nat
                    } else {
                        i as nat
                    },
                    scale: 0,
                },
            ),
        ),
        value matches ValueView::Boolean(b) ==> decimal_result(value) == Ok::<
            ValueView,
            QueryErrorView,
        >(
            ValueView::Number(
                NumberView {
                    negative: false,
                    magnitude: if b {
                        1
                    } else {
                        0
                    },
                    scale: 0,
                },
            ),
        ),
        value matches ValueView::String(s) ==> decimal_result(value) == match parsed_decimal(s) {
            Some(n) => Ok::<ValueView, QueryErrorView>(ValueView::Number(n)),
            None => Err(QueryErrorView::Type("DECIMAL: cannot parse '"@ + s + "' as decimal"@)),
        },
        value is Date || value is Amount || value is Position || value is Inventory || value
            is StringSet || value is Metadata || value is Entry ==> decimal_result(value) == Err::<
            ValueView,
            QueryErrorView,
        >(QueryErrorView::Type("DECIMAL expects a number, integer, boolean, or string"@)),
{
}

/// What `DECIMAL` makes of a string that was parsed, or was not.
pub proof fn law_decimal_of_parsed(parsed: Option<NumberView>, s: Seq<char>)
    ensures
        parsed_decimal_result(parsed, s) == match parsed {
            Some(n) => Ok::<ValueView, QueryErrorView>(ValueView::Number(n)),
            None => Err(QueryErrorView::Type("DECIMAL: cannot parse '"@ + s + "' as decimal"@)),
        },
{
}

/// `BOOL` on each kind of value: a number is true unless it is zero.
pub proof fn law_bool_of_each_kind(value: ValueView)
    ensures
        value is Null ==> bool_result(value) == Ok::<ValueView, QueryErrorView>(ValueView::Null),
        value is Boolean ==> bool_result(value) == Ok::<ValueView, QueryErrorView>(value),
        value matches ValueView::Integer(i) ==> bool_result(value) == Ok::<
            ValueView,
            QueryErrorView,
        >(ValueView::Boolean(i != 0)),
        value matches ValueView::Number(n) ==> bool_result(value) == Ok::<
            ValueView,
            QueryErrorView,
        >(ValueView::Boolean(n.magnitude != 0)),
        value matches ValueView::String(s) ==> bool_result(value) == word_result(uppercase(s), s),
        value is Date || value is Amount || value is Position || value is Inventory || value
            is StringSet || value is Metadata || value is Entry ==> bool_result(value) == Err::<
            ValueView,
            QueryErrorView,
        >(QueryErrorView::Type("BOOL expects a boolean, number, integer, or string"@)),
{
}

/// Five uppercase words say yes, five and the empty one say no, and every other word is an error
/// that quotes the string as it was given.
pub proof fn law_words_for_truth(upper: Seq<char>, s: Seq<char>)
    ensures
        word_result(upper, s) == Ok::<ValueView, QueryErrorView>(ValueView::Boolean(true)) <==> upper
            == seq!['T', 'R', 'U', 'E'] || upper == seq!['Y', 'E', 'S'] || upper == seq!['1']
            || upper == seq!['T'] || upper == seq!['Y'],
        word_result(upper, s) == Ok::<ValueView, QueryErrorView>(ValueView::Boolean(false)) <==> upper
            == seq!['F', 'A', 'L', 'S', 'E'] || upper == seq!['N', 'O'] || upper == seq!['0']
            || upper == seq!['F'] || upper == seq!['N'] || upper.len() == 0,
        word_result(upper, s) is Err ==> word_result(upper, s) == Err::<ValueView, QueryErrorView>(
            QueryErrorView::Type("BOOL: cannot parse '"@ + s + "' as boolean"@),
        ),
        word_result(upper, s) is Ok ==> word_result(upper, s)->Ok_0 is Boolean,
{
    reveal_strlit("TRUE");
    reveal_strlit("YES");
    reveal_strlit("1");
    reveal_strlit("T");
    reveal_strlit("Y");
    reveal_strlit("FALSE");
    reveal_strlit("NO");
    reveal_strlit("0");
    reveal_strlit("F");
    reveal_strlit("N");
    reveal_strlit("");
    assert("TRUE"@ =~= seq!['T', 'R', 'U', 'E']);
    assert("YES"@ =~= seq!['Y', 'E', 'S']);
    assert("1"@ =~= seq!['1']);
    assert("T"@ =~= seq!['T']);
    assert("Y"@ =~= seq!['Y']);
    assert("FALSE"@ =~= seq!['F', 'A', 'L', 'S', 'E']);
    assert("NO"@ =~= seq!['N', 'O']);
    assert("0"@ =~= seq!['0']);
    assert("F"@ =~= seq!['F']);
    assert("N"@ =~= seq!['N']);
    assert(upper.len() == 0 ==> upper =~= ""@);
    assert(seq!['T'][0] == 'T' && seq!['Y'][0] == 'Y' && seq!['1'][0] == '1');
    assert(seq!['F'][0] == 'F' && seq!['N'][0] == 'N' && seq!['0'][0] == '0');
}

} // verus!
