//! What holds of the functions of the query language, whatever they are given.
use crate::executor::{ContextView, ExecutorView};
use crate::functions::{
    augmented, bool_result, coalesced, decimal_result, filename_cell, int_result, is_null,
    lineno_cell, location_cell, looked_up, meta_cell, meta_found, meta_result,
    saturated_line, str_result,
};
use crate::ledger::LocationView;
use crate::metadata::{meta_entry, MetaValueView};
use crate::number::{whole_number, NumberView};
use crate::text::{int_text, lemma_int_text_round_trip};
use crate::value::{QueryErrorView, ValueView};
use vstd::arithmetic::power::pow;
use vstd::prelude::*;

verus! {

/// The columns `filename`, `lineno` and `location` agree: all three are `NULL`, or `location`
/// is the file name and the number of the `lineno` column with a colon between them. The line
/// number is never negative.
pub proof fn law_location_columns_agree(loc: Option<LocationView>)
    ensures
        filename_cell(loc) is Null <==> loc is None,
        lineno_cell(loc) is Null <==> loc is None,
        location_cell(loc) is Null <==> loc is None,
        loc is Some ==> filename_cell(loc) is String && lineno_cell(loc) is Integer
            && lineno_cell(loc)->Integer_0 >= 0 && location_cell(loc) == ValueView::String(
            filename_cell(loc)->String_0 + ":"@ + int_text(lineno_cell(loc)->Integer_0 as int),
        ),
{
}

/// A greater line number is never shown as a smaller one, and a line number that an `i64` holds
/// is shown as it is.
pub proof fn law_line_numbers_saturate(a: nat, b: nat)
    ensures
        a <= b ==> saturated_line(a) <= saturated_line(b),
        a <= i64::MAX ==> saturated_line(a) == a,
        a > i64::MAX ==> saturated_line(a) == i64::MAX,
{
}

/// To look up a key, and to look it up in the metadata that the location was put into, is the
/// same.
pub proof fn law_lookup_reads_the_augmented_metadata(
    raw: Map<Seq<char>, MetaValueView>,
    loc: Option<LocationView>,
    key: Seq<char>,
)
    ensures
        looked_up(raw, loc, key) == meta_entry(augmented(raw, loc), key),
{
}

/// What the ledger itself has under a key always wins, also under `filename` and `lineno`.
pub proof fn law_own_keys_win(
    raw: Map<Seq<char>, MetaValueView>,
    loc: Option<LocationView>,
    key: Seq<char>,
)
    requires
        raw.contains_key(key),
    ensures
        looked_up(raw, loc, key) == Some(raw[key]),
        augmented(raw, loc).contains_key(key),
        augmented(raw, loc)[key] == raw[key],
{
}

/// The location adds nothing but `filename` and `lineno`, and without a location nothing is
/// added.
pub proof fn law_location_adds_two_keys(
    raw: Map<Seq<char>, MetaValueView>,
    loc: Option<LocationView>,
)
    ensures
        loc is None ==> augmented(raw, loc) == raw,
        loc is Some ==> augmented(raw, loc).dom() == raw.dom().insert("filename"@).insert(
            "lineno"@,
        ),
        forall|key: Seq<char>|
            key != "filename"@ && key != "lineno"@ ==> #[trigger] looked_up(raw, loc, key)
                == meta_entry(raw, key),
{
    if loc is Some {
        assert(augmented(raw, loc).dom() =~= raw.dom().insert("filename"@).insert("lineno"@));
    }
}

/// Metadata that a location was put into takes nothing from a second one, be it the same or
/// another.
pub proof fn law_augmenting_twice(
    raw: Map<Seq<char>, MetaValueView>,
    first: LocationView,
    second: Option<LocationView>,
)
    ensures
        augmented(augmented(raw, Some(first)), second) == augmented(raw, Some(first)),
{
}

/// Where the ledger itself has no such keys, a lookup of `filename` and `lineno` gives what the
/// columns of these names show; the line number as long as an `i64` holds it.
pub proof fn law_lookup_agrees_with_columns(
    raw: Map<Seq<char>, MetaValueView>,
    loc: Option<LocationView>,
)
    ensures
        !raw.contains_key("filename"@) ==> meta_cell(looked_up(raw, loc, "filename"@))
            == filename_cell(loc),
        !raw.contains_key("lineno"@) && (loc matches Some(l) ==> l.lineno <= i64::MAX)
            ==> meta_cell(looked_up(raw, loc, "lineno"@)) == lineno_cell(loc),
{
    reveal_strlit("filename");
    reveal_strlit("lineno");
    assert("filename"@.len() != "lineno"@.len());
}

/// `POSTING_META` is another name of `META`.
pub proof fn law_posting_meta_is_meta(executor: ExecutorView, ctx: ContextView, key: Seq<char>)
    ensures
        meta_found(executor, "POSTING_META"@, ctx, key) == meta_found(
            executor,
            "META"@,
            ctx,
            key,
        ),
{
}

/// `ANY_META` finds what `META` finds, or else what `ENTRY_META` finds.
pub proof fn law_any_meta_falls_back(executor: ExecutorView, ctx: ContextView, key: Seq<char>)
    ensures
        meta_found(executor, "ANY_META"@, ctx, key) == match meta_found(
            executor,
            "META"@,
            ctx,
            key,
        ) {
            Some(value) => Some(value),
            None => meta_found(executor, "ENTRY_META"@, ctx, key),
        },
{
    reveal_strlit("META");
    reveal_strlit("POSTING_META");
    reveal_strlit("ENTRY_META");
    reveal_strlit("ANY_META");
    assert("ENTRY_META"@.len() == 10 && "META"@.len() == 4 && "POSTING_META"@.len() == 12
        && "ANY_META"@.len() == 8);
}

/// A metadata function fails on every argument but a string, and passes an error of its
/// argument on; on a string it never fails.
pub proof fn law_meta_functions_take_strings(
    executor: ExecutorView,
    name: Seq<char>,
    ctx: ContextView,
    argument: Result<ValueView, QueryErrorView>,
)
    ensures
        meta_result(executor, name, ctx, argument) is Ok <==> (argument matches Ok(value)
            && value is String),
        argument is Err ==> meta_result(executor, name, ctx, argument) == argument,
{
}

/// `COALESCE` of nothing, or of nothing but `NULL`, is `NULL`.
pub proof fn law_coalesce_of_nulls(outcomes: Seq<Result<ValueView, QueryErrorView>>)
    requires
        forall|i: int| 0 <= i < outcomes.len() ==> is_null(#[trigger] outcomes[i]),
    ensures
        coalesced(outcomes) == Ok::<ValueView, QueryErrorView>(ValueView::Null),
    decreases outcomes.len(),
{
    if outcomes.len() > 0 {
        assert(is_null(outcomes[0]));
        law_coalesce_of_nulls(outcomes.skip(1));
    }
}

/// `COALESCE` gives the first outcome that is not `NULL`, whatever follows it.
pub proof fn law_coalesce_takes_the_first(outcomes: Seq<Result<ValueView, QueryErrorView>>, k: int)
    requires
        0 <= k < outcomes.len(),
        forall|i: int| 0 <= i < k ==> is_null(#[trigger] outcomes[i]),
        !is_null(outcomes[k]),
    ensures
        coalesced(outcomes) == outcomes[k],
    decreases k,
{
    if k > 0 {
        assert(is_null(outcomes[0]));
        law_coalesce_takes_the_first(outcomes.skip(1), k - 1);
    }
}

/// Every conversion leaves `NULL` as it is.
pub proof fn law_conversions_keep_null()
    ensures
        str_result(ValueView::Null) == Ok::<ValueView, QueryErrorView>(ValueView::Null),
        int_result(ValueView::Null) == Ok::<ValueView, QueryErrorView>(ValueView::Null),
        decimal_result(ValueView::Null) == Ok::<ValueView, QueryErrorView>(ValueView::Null),
        bool_result(ValueView::Null) == Ok::<ValueView, QueryErrorView>(ValueView::Null),
{
}

/// A conversion that succeeds gives a value of its kind, or `NULL` of `NULL`; to convert such
/// a value again changes nothing.
pub proof fn law_conversions_settle(value: ValueView)
    ensures
        str_result(value) matches Ok(v) ==> (v is Null <==> value is Null) && (v is String
            || v is Null) && str_result(v) == Ok::<ValueView, QueryErrorView>(v),
        int_result(value) matches Ok(v) ==> (v is Null <==> value is Null) && (v is Integer
            || v is Null) && int_result(v) == Ok::<ValueView, QueryErrorView>(v),
        decimal_result(value) matches Ok(v) ==> (v is Null <==> value is Null) && (v is Number
            || v is Null) && decimal_result(v) == Ok::<ValueView, QueryErrorView>(v),
        bool_result(value) matches Ok(v) ==> (v is Null <==> value is Null) && (v is Boolean
            || v is Null) && bool_result(v) == Ok::<ValueView, QueryErrorView>(v),
{
}

/// `INT` reads back what `STR` writes of an integer.
pub proof fn law_int_reads_str(i: i64)
    ensures
        int_result(ValueView::String(int_text(i as int))) == Ok::<ValueView, QueryErrorView>(
            ValueView::Integer(i),
        ),
        str_result(ValueView::Integer(i)) == Ok::<ValueView, QueryErrorView>(
            ValueView::String(int_text(i as int)),
        ),
{
    lemma_int_text_round_trip(i as int);
}

/// `INT` undoes `DECIMAL` on integers, and both agree on what is true.
pub proof fn law_int_undoes_decimal(i: i64)
    ensures
        decimal_result(ValueView::Integer(i)) == Ok::<ValueView, QueryErrorView>(
            ValueView::Number(whole_number(i as int)),
        ),
        int_result(ValueView::Number(whole_number(i as int))) == Ok::<ValueView, QueryErrorView>(
            ValueView::Integer(i),
        ),
        bool_result(ValueView::Number(whole_number(i as int))) == bool_result(
            ValueView::Integer(i),
        ),
{
    lemma_whole_of_whole(i as int);
}

proof fn lemma_whole_of_whole(i: int)
    ensures
        whole_number(i).whole() == i,
{
    vstd::arithmetic::power::lemma_pow0(10);
    let n = whole_number(i);
    assert(n.magnitude as int / 1 == n.magnitude);
}

/// `BOOL` undoes `INT` and `DECIMAL` on truth values.
pub proof fn law_bool_undoes_int_and_decimal(b: bool)
    ensures
        int_result(ValueView::Boolean(b)) matches Ok(v) && bool_result(v) == Ok::<
            ValueView,
            QueryErrorView,
        >(ValueView::Boolean(b)),
        decimal_result(ValueView::Boolean(b)) matches Ok(v) && bool_result(v) == Ok::<
            ValueView,
            QueryErrorView,
        >(ValueView::Boolean(b)),
{
}

/// `INT` of a number drops what stands behind the point: it goes towards zero, by less than
/// one.
pub proof fn law_int_truncates(n: NumberView)
    ensures
        int_result(ValueView::Number(n)) matches Ok(v) ==> v == ValueView::Integer(
            n.whole() as i64,
        ),
        n.whole() >= 0 ==> n.whole() * pow(10, n.scale) <= n.magnitude < (n.whole() + 1) * pow(
            10,
            n.scale,
        ),
        n.whole() < 0 ==> -n.whole() * pow(10, n.scale) <= n.magnitude < (1 - n.whole()) * pow(
            10,
            n.scale,
        ),
        n.negative ==> n.whole() <= 0,
        !n.negative ==> n.whole() >= 0,
{
    let unit = pow(10, n.scale);
    let m = n.magnitude as int;
    vstd::arithmetic::power::lemma_pow_positive(10, n.scale);
    vstd::arithmetic::div_mod::lemma_fundamental_div_mod(m, unit);
    vstd::arithmetic::div_mod::lemma_mod_bound(m, unit);
    vstd::arithmetic::div_mod::lemma_div_pos_is_pos(m, unit);
    let q = m / unit;
    assert(q * unit <= m < (q + 1) * unit) by (nonlinear_arith)
        requires
            m == unit * q + m % unit,
            0 <= m % unit < unit,
    ;
}

} // verus!
