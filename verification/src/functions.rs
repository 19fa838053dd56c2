//! Functions of the query language: metadata, the places of postings, conversions, `COALESCE`.
use crate::ast::{Expr, FunctionCall};
use crate::executor::{ContextView, Executor, ExecutorView, PostingContext};
use crate::ledger::{LocationView, SourceLocation};
use crate::metadata::{meta_entry, MetaValue, MetaValueView, Metadata};
use crate::number::{parse_decimal, parsed_decimal, whole_number, Number, NumberView};
use crate::render::{inventory_text, position_text, render_inventory, render_position};
use crate::text::{
    ascii_upper, int_text, parse_i64, parse_i64_text, same_text, to_upper, uppercase, write_i64,
};
use crate::value::{result_view, QueryError, QueryErrorView, Value, ValueView};
use crate::views::{option_view, Duplicate};
use vstd::prelude::*;
use vstd::utf8::is_ascii_chars;

verus! {

/// What an optional reference to a location holds.
pub open spec fn place(loc: Option<&SourceLocation>) -> Option<LocationView> {
    match loc {
        Some(l) => Some(l@),
        None => None,
    }
}

/// A line number as an `i64`, or the largest `i64` where it is greater.
pub open spec fn saturated_line(lineno: nat) -> i64 {
    if lineno <= i64::MAX {
        lineno as i64
    } else {
        i64::MAX
    }
}

/// The value of the `filename` column.
pub open spec fn filename_cell(loc: Option<LocationView>) -> ValueView {
    match loc {
        Some(l) => ValueView::String(l.filename),
        None => ValueView::Null,
    }
}

/// The value of the `lineno` column.
pub open spec fn lineno_cell(loc: Option<LocationView>) -> ValueView {
    match loc {
        Some(l) => ValueView::Integer(saturated_line(l.lineno)),
        None => ValueView::Null,
    }
}

/// The value of the `location` column: file name and line number with a colon between them.
pub open spec fn location_cell(loc: Option<LocationView>) -> ValueView {
    match loc {
        Some(l) => ValueView::String(l.filename + ":"@ + int_text(saturated_line(l.lineno) as int)),
        None => ValueView::Null,
    }
}

/// The metadata that a location stands for: its file name and its line number.
pub open spec fn location_meta(loc: Option<LocationView>, key: Seq<char>) -> Option<MetaValueView> {
    match loc {
        None => None,
        Some(l) => if key == "filename"@ {
            Some(MetaValueView::String(l.filename))
        } else if key == "lineno"@ {
            if l.lineno <= i64::MAX {
                Some(MetaValueView::Int(l.lineno as i64))
            } else {
                Some(MetaValueView::Number(whole_number(l.lineno as int)))
            }
        } else {
            None
        },
    }
}

/// The metadata value under a key: the one that is there, or else what the location stands for.
pub open spec fn looked_up(
    raw: Map<Seq<char>, MetaValueView>,
    loc: Option<LocationView>,
    key: Seq<char>,
) -> Option<MetaValueView> {
    match meta_entry(raw, key) {
        Some(value) => Some(value),
        None => location_meta(loc, key),
    }
}

/// The metadata with what the location stands for under one key, unless there is a value.
pub open spec fn with_location_key(
    meta: Map<Seq<char>, MetaValueView>,
    loc: Option<LocationView>,
    key: Seq<char>,
) -> Map<Seq<char>, MetaValueView> {
    match location_meta(loc, key) {
        Some(value) if !meta.contains_key(key) => meta.insert(key, value),
        _ => meta,
    }
}

/// The metadata with the file name and the line number of a location, where they are not taken.
pub open spec fn augmented(
    raw: Map<Seq<char>, MetaValueView>,
    loc: Option<LocationView>,
) -> Map<Seq<char>, MetaValueView> {
    with_location_key(with_location_key(raw, loc, "filename"@), loc, "lineno"@)
}

/// A metadata value as a query value. Accounts, currencies, tags and links are strings there.
pub open spec fn meta_cell(value: Option<MetaValueView>) -> ValueView {
    match value {
        None => ValueView::Null,
        Some(MetaValueView::String(s)) => ValueView::String(s),
        Some(MetaValueView::Number(n)) => ValueView::Number(n),
        Some(MetaValueView::Int(i)) => ValueView::Integer(i),
        Some(MetaValueView::Date(d)) => ValueView::Date(d),
        Some(MetaValueView::Bool(b)) => ValueView::Boolean(b),
        Some(MetaValueView::Amount(a)) => ValueView::Amount(a),
        Some(MetaValueView::Account(a)) => ValueView::String(a),
        Some(MetaValueView::Currency(c)) => ValueView::String(c),
        Some(MetaValueView::Tag(t)) => ValueView::String(t),
        Some(MetaValueView::Link(l)) => ValueView::String(l),
        Some(MetaValueView::Empty) => ValueView::Null,
    }
}

impl Executor {
    /// The metadata that a location stands for.
    pub fn source_location_meta_key(loc: Option<&SourceLocation>, key: &str) -> (value: Option<
        MetaValue,
    >)
        ensures
            option_view(value) == location_meta(place(loc), key@),
    {
        match loc {
            None => None,
            Some(l) => if same_text(key, "filename") {
                Some(MetaValue::String(l.filename.clone()))
            } else if same_text(key, "lineno") {
                if l.lineno as u64 <= i64::MAX as u64 {
                    Some(MetaValue::Int(l.lineno as i64))
                } else {
                    Some(MetaValue::Number(Number::from_u64(l.lineno as u64)))
                }
            } else {
                None
            },
        }
    }

    /// The value of the `filename` column.
    pub fn source_filename_value(loc: Option<&SourceLocation>) -> (value: Value)
        ensures
            value@ == filename_cell(place(loc)),
    {
        match loc {
            Some(l) => Value::String(l.filename.clone()),
            None => Value::Null,
        }
    }

    /// The line number as an `i64`, or the largest `i64` where it is greater. The columns
    /// `lineno` and `location` share it, so that they agree.
    pub fn lineno_i64(loc: &SourceLocation) -> (lineno: i64)
        ensures
            lineno == saturated_line(loc@.lineno),
    {
        if loc.lineno as u64 <= i64::MAX as u64 {
            loc.lineno as i64
        } else {
            i64::MAX
        }
    }

    /// The value of the `lineno` column.
    pub fn source_lineno_value(loc: Option<&SourceLocation>) -> (value: Value)
        ensures
            value@ == lineno_cell(place(loc)),
    {
        match loc {
            Some(l) => Value::Integer(Self::lineno_i64(l)),
            None => Value::Null,
        }
    }

    /// The value of the `location` column.
    pub fn source_location_value(loc: Option<&SourceLocation>) -> (value: Value)
        ensures
            value@ == location_cell(place(loc)),
    {
        match loc {
            Some(l) => {
                let mut text = l.filename.clone();
                text.append(":");
                text.append(write_i64(Self::lineno_i64(l)).as_str());
                Value::String(text)
            },
            None => Value::Null,
        }
    }

    /// The metadata value under a key, or else what the location stands for.
    pub fn meta_lookup(raw: &Metadata, loc: Option<&SourceLocation>, key: &str) -> (value: Option<
        MetaValue,
    >)
        ensures
            option_view(value) == looked_up(raw@, place(loc), key@),
    {
        match raw.get(key) {
            Some(value) => Some(value.duplicate()),
            None => Self::source_location_meta_key(loc, key),
        }
    }

    /// The metadata with the file name and the line number of a location. What the ledger
    /// itself has under these keys stays.
    pub fn augmented_meta(raw: &Metadata, loc: Option<&SourceLocation>) -> (meta: Metadata)
        ensures
            meta@ == augmented(raw@, place(loc)),
    {
        let mut meta = raw.duplicate();
        Self::add_location_key(&mut meta, loc, "filename");
        Self::add_location_key(&mut meta, loc, "lineno");
        meta
    }

    fn add_location_key(meta: &mut Metadata, loc: Option<&SourceLocation>, key: &str)
        ensures
            final(meta)@ == with_location_key(old(meta)@, place(loc), key@),
    {
        if !meta.contains_key(key) {
            if let Some(value) = Self::source_location_meta_key(loc, key) {
                meta.insert(key.to_owned(), value);
            }
        }
    }

    /// A metadata value as a query value.
    pub fn meta_value_to_value(mv: Option<&MetaValue>) -> (value: Value)
        ensures
            value@ == meta_cell(
                match mv {
                    Some(m) => Some(m@),
                    None => None,
                },
            ),
    {
        match mv {
            None => Value::Null,
            Some(MetaValue::String(s)) => Value::String(s.clone()),
            Some(MetaValue::Number(n)) => Value::Number(*n),
            Some(MetaValue::Int(i)) => Value::Integer(*i),
            Some(MetaValue::Date(d)) => Value::Date(*d),
            Some(MetaValue::Bool(b)) => Value::Boolean(*b),
            Some(MetaValue::Amount(a)) => Value::Amount(a.duplicate()),
            Some(MetaValue::Account(a)) => Value::String(a.clone()),
            Some(MetaValue::Currency(c)) => Value::String(c.clone()),
            Some(MetaValue::Tag(t)) => Value::String(t.clone()),
            Some(MetaValue::Link(l)) => Value::String(l.clone()),
            Some(MetaValue::Empty) => Value::Null,
        }
    }
}

/// Whether there is a metadata function of this name.
pub open spec fn is_meta_function(name: Seq<char>) -> bool {
    name == "META"@ || name == "POSTING_META"@ || name == "ENTRY_META"@ || name == "ANY_META"@
}

/// What a metadata function finds under a key: `META` and `POSTING_META` in the posting,
/// `ENTRY_META` in the transaction, `ANY_META` in the posting or else in the transaction.
pub open spec fn meta_found(
    executor: ExecutorView,
    name: Seq<char>,
    ctx: ContextView,
    key: Seq<char>,
) -> Option<MetaValueView> {
    let of_posting = looked_up(ctx.posting().meta, executor.posting_location(ctx), key);
    let of_entry = looked_up(ctx.transaction.meta, executor.entry_location(ctx), key);
    if name == "META"@ || name == "POSTING_META"@ {
        of_posting
    } else if name == "ENTRY_META"@ {
        of_entry
    } else {
        match of_posting {
            Some(value) => Some(value),
            None => of_entry,
        }
    }
}

/// What a metadata function gives for the outcome of its argument.
pub open spec fn meta_result(
    executor: ExecutorView,
    name: Seq<char>,
    ctx: ContextView,
    argument: Result<ValueView, QueryErrorView>,
) -> Result<ValueView, QueryErrorView> {
    match argument {
        Ok(ValueView::String(key)) => Ok(meta_cell(meta_found(executor, name, ctx, key))),
        Ok(_) => Err(QueryErrorView::Type(name + ": argument must be a string key"@)),
        Err(error) => Err(error),
    }
}

/// Whether an evaluation came to `NULL`.
pub open spec fn is_null(outcome: Result<ValueView, QueryErrorView>) -> bool {
    outcome matches Ok(value) && value is Null
}

/// What `COALESCE` gives for the outcomes of its arguments, as far as they were evaluated: the
/// first that is not `NULL`, be it a value or an error.
pub open spec fn coalesced(outcomes: Seq<Result<ValueView, QueryErrorView>>) -> Result<
    ValueView,
    QueryErrorView,
>
    decreases outcomes.len(),
{
    if outcomes.len() == 0 {
        Ok(ValueView::Null)
    } else if is_null(outcomes[0]) {
        coalesced(outcomes.skip(1))
    } else {
        outcomes[0]
    }
}

/// What the outcomes of evaluations hold.
pub open spec fn outcomes_view(outcomes: Seq<Result<Value, QueryError>>) -> Seq<
    Result<ValueView, QueryErrorView>,
> {
    Seq::new(outcomes.len(), |i: int| result_view(outcomes[i]))
}

/// Nothing but `NULL` coalesces to `NULL`, and what follows decides.
proof fn lemma_coalesced_push(
    outcomes: Seq<Result<ValueView, QueryErrorView>>,
    last: Result<ValueView, QueryErrorView>,
)
    requires
        forall|i: int|
            0 <= i < outcomes.len() ==> is_null(#[trigger] outcomes[i]),
    ensures
        coalesced(outcomes.push(last)) == last,
        is_null(coalesced(outcomes)),
    decreases outcomes.len(),
{
    let all = outcomes.push(last);
    if outcomes.len() == 0 {
        assert(all.skip(1) == Seq::<Result<ValueView, QueryErrorView>>::empty());
        assert(is_null(coalesced(all.skip(1))));
    } else {
        assert(is_null(outcomes[0]));
        assert(all[0] == outcomes[0]);
        assert(all.skip(1) == outcomes.skip(1).push(last));
        lemma_coalesced_push(outcomes.skip(1), last);
    }
}

impl Executor {
    /// Whether a function was given as many arguments as it takes.
    pub fn require_args(name: &str, func: &FunctionCall, expected: usize) -> (result: Result<
        (),
        QueryError,
    >)
        ensures
            result is Ok <==> func.args@.len() == expected,
            result matches Err(error) ==> error@ == (QueryErrorView::InvalidArguments {
                function: name@,
                expected: expected as nat,
                given: func.args@.len(),
            }),
    {
        if func.args.len() == expected {
            Ok(())
        } else {
            Err(
                QueryError::InvalidArguments {
                    function: name.to_owned(),
                    expected,
                    given: func.args.len(),
                },
            )
        }
    }

    /// What a metadata function gives for the outcome of its argument.
    pub fn meta_function_value(
        &self,
        name: &str,
        argument: Result<Value, QueryError>,
        ctx: &PostingContext,
    ) -> (result: Result<Value, QueryError>)
        requires
            result_view(argument) matches Ok(ValueView::String(_)) ==> is_meta_function(name@)
                && ctx@.is_valid(),
        ensures
            result_view(result) == meta_result(self@, name@, ctx@, result_view(argument)),
    {
        let key = match argument {
            Ok(Value::String(key)) => key,
            Ok(_) => {
                let mut message = name.to_owned();
                message.append(": argument must be a string key");
                return Err(QueryError::Type(message));
            },
            Err(error) => {
                return Err(error);
            },
        };
        let posting = &ctx.transaction.postings[ctx.posting_index];
        assert(posting@ == ctx@.posting());
        let posting_loc = self.resolved_source_location(ctx);
        let entry_loc = self.entry_source_location(ctx);
        let found = if same_text(name, "META") || same_text(name, "POSTING_META") {
            Self::meta_lookup(&posting.meta, posting_loc.as_ref(), key.as_str())
        } else if same_text(name, "ENTRY_META") {
            Self::meta_lookup(&ctx.transaction.meta, entry_loc.as_ref(), key.as_str())
        } else {
            match Self::meta_lookup(&posting.meta, posting_loc.as_ref(), key.as_str()) {
                Some(value) => Some(value),
                None => Self::meta_lookup(
                    &ctx.transaction.meta,
                    entry_loc.as_ref(),
                    key.as_str(),
                ),
            }
        };
        Ok(Self::meta_value_to_value(found.as_ref()))
    }

    /// Evaluates a metadata function: `META` and `POSTING_META` look into the posting,
    /// `ENTRY_META` into the transaction, `ANY_META` into the posting first and then into the
    /// transaction. `evaluate` gives the value of an expression for a posting.
    pub fn eval_meta_function<F: Fn(&Expr, &PostingContext) -> Result<Value, QueryError>>(
        &self,
        name: &str,
        func: &FunctionCall,
        ctx: &PostingContext,
        evaluate: F,
    ) -> (result: Result<Value, QueryError>)
        requires
            func.args@.len() == 1 ==> call_requires(evaluate, (&func.args@[0], ctx)),
            forall|key: String|
                func.args@.len() == 1 && #[trigger] call_ensures(
                    evaluate,
                    (&func.args@[0], ctx),
                    Ok(Value::String(key)),
                ) ==> is_meta_function(name@) && ctx@.is_valid(),
        ensures
            func.args@.len() != 1 ==> result_view(result) == Err::<ValueView, QueryErrorView>(
                QueryErrorView::InvalidArguments {
                    function: name@,
                    expected: 1,
                    given: func.args@.len(),
                },
            ),
            func.args@.len() == 1 ==> exists|argument: Result<Value, QueryError>| #[trigger]
                call_ensures(evaluate, (&func.args@[0], ctx), argument) && result_view(result)
                    == meta_result(self@, name@, ctx@, result_view(argument)),
    {
        if let Err(error) = Self::require_args(name, func, 1) {
            return Err(error);
        }
        let argument = evaluate(&func.args[0], ctx);
        self.meta_function_value(name, argument, ctx)
    }

    /// Evaluates `COALESCE`: the arguments in order, up to the first that is not `NULL`. An
    /// error of an argument before that is the outcome. `evaluate` gives the value of an
    /// expression for a posting.
    pub fn eval_coalesce<F: Fn(&Expr, &PostingContext) -> Result<Value, QueryError>>(
        &self,
        func: &FunctionCall,
        ctx: &PostingContext,
        evaluate: F,
    ) -> (result: Result<Value, QueryError>)
        requires
            forall|i: int|
                0 <= i < func.args@.len() ==> call_requires(evaluate, (#[trigger] &func.args@[i], ctx)),
        ensures
            exists|outcomes: Seq<Result<Value, QueryError>>|
                {
                    &&& outcomes.len() <= func.args@.len()
                    &&& forall|i: int|
                        0 <= i < outcomes.len() ==> call_ensures(
                            evaluate,
                            (&func.args@[i], ctx),
                            #[trigger] outcomes[i],
                        )
                    &&& forall|i: int|
                        0 <= i < outcomes.len() - 1 ==> is_null(result_view(#[trigger] outcomes[i]))
                    &&& outcomes.len() < func.args@.len() ==> !is_null(result_view(result))
                    &&& result_view(result) == coalesced(#[trigger] outcomes_view(outcomes))
                },
    {
        let mut i: usize = 0;
        let ghost mut outcomes: Seq<Result<Value, QueryError>> = Seq::empty();
        while i < func.args.len()
            invariant
                i <= func.args.len(),
                outcomes.len() == i,
                forall|k: int|
                    0 <= k < func.args@.len() ==> call_requires(
                        evaluate,
                        (#[trigger] &func.args@[k], ctx),
                    ),
                forall|k: int|
                    0 <= k < i ==> call_ensures(evaluate, (&func.args@[k], ctx), #[trigger] outcomes[k]),
                forall|k: int|
                    0 <= k < i ==> is_null(result_view(#[trigger] outcomes[k])),
            decreases func.args.len() - i,
        {
            let outcome = evaluate(&func.args[i], ctx);
            let decides = match &outcome {
                Ok(Value::Null) => false,
                _ => true,
            };
            proof {
                let before = outcomes_view(outcomes);
                outcomes = outcomes.push(outcome);
                assert(outcomes_view(outcomes) =~= before.push(result_view(outcome)));
                lemma_coalesced_push(before, result_view(outcome));
            }
            if decides {
                return outcome;
            }
            i = i + 1;
        }
        proof {
            lemma_coalesced_push(outcomes_view(outcomes), Ok(ValueView::Null));
        }
        Ok(Value::Null)
    }
}

/// `STR`: a value as a string.
pub open spec fn str_result(value: ValueView) -> Result<ValueView, QueryErrorView> {
    match value {
        ValueView::String(s) => Ok(ValueView::String(s)),
        ValueView::Integer(i) => Ok(ValueView::String(int_text(i as int))),
        ValueView::Number(n) => Ok(ValueView::String(n.text())),
        ValueView::Boolean(b) => Ok(
            ValueView::String(
                if b {
                    "TRUE"@
                } else {
                    "FALSE"@
                },
            ),
        ),
        ValueView::Date(d) => Ok(ValueView::String(d.text())),
        ValueView::Amount(a) => Ok(ValueView::String(a.number.text() + " "@ + a.currency)),
        ValueView::Position(p) => Ok(ValueView::String(position_text(p))),
        ValueView::Inventory(positions) => Ok(ValueView::String(inventory_text(positions))),
        ValueView::Null => Ok(ValueView::Null),
        _ => Err(
            QueryErrorView::Type(
                "STR expects a string, integer, number, boolean, date, amount, position, or inventory"@,
            ),
        ),
    }
}

/// `INT`: a value as an integer.
pub open spec fn int_result(value: ValueView) -> Result<ValueView, QueryErrorView> {
    match value {
        ValueView::Integer(i) => Ok(ValueView::Integer(i)),
        ValueView::Number(n) => if i64::MIN <= n.whole() <= i64::MAX {
            Ok(ValueView::Integer(n.whole() as i64))
        } else {
            Err(QueryErrorView::Type("INT: cannot convert '"@ + n.text() + "' to integer"@))
        },
        ValueView::Boolean(b) => Ok(
            ValueView::Integer(
                if b {
                    1
                } else {
                    0
                },
            ),
        ),
        ValueView::String(s) => match parse_i64_text(s) {
            Some(i) => Ok(ValueView::Integer(i)),
            None => Err(QueryErrorView::Type("INT: cannot parse '"@ + s + "' as integer"@)),
        },
        ValueView::Null => Ok(ValueView::Null),
        _ => Err(QueryErrorView::Type("INT expects a number, integer, boolean, or string"@)),
    }
}

/// `DECIMAL` of a string, from what the string was parsed to.
pub open spec fn parsed_decimal_result(parsed: Option<NumberView>, s: Seq<char>) -> Result<
    ValueView,
    QueryErrorView,
> {
    match parsed {
        Some(n) => Ok(ValueView::Number(n)),
        None => Err(QueryErrorView::Type("DECIMAL: cannot parse '"@ + s + "' as decimal"@)),
    }
}

/// `DECIMAL`: a value as a decimal number.
pub open spec fn decimal_result(value: ValueView) -> Result<ValueView, QueryErrorView> {
    match value {
        ValueView::Number(n) => Ok(ValueView::Number(n)),
        ValueView::Integer(i) => Ok(ValueView::Number(whole_number(i as int))),
        ValueView::Boolean(b) => Ok(
            ValueView::Number(
                whole_number(
                    if b {
                        1
                    } else {
                        0
                    },
                ),
            ),
        ),
        ValueView::String(s) => parsed_decimal_result(parsed_decimal(s), s),
        ValueView::Null => Ok(ValueView::Null),
        _ => Err(QueryErrorView::Type("DECIMAL expects a number, integer, boolean, or string"@)),
    }
}

/// What an uppercase word says: yes, no, or nothing.
pub open spec fn word_truth(upper: Seq<char>) -> Option<bool> {
    if upper == "TRUE"@ || upper == "YES"@ || upper == "1"@ || upper == "T"@ || upper == "Y"@ {
        Some(true)
    } else if upper == "FALSE"@ || upper == "NO"@ || upper == "0"@ || upper == "F"@ || upper == "N"@
        || upper == ""@ {
        Some(false)
    } else {
        None
    }
}

/// `BOOL` of a string, from its uppercase form.
pub open spec fn word_result(upper: Seq<char>, s: Seq<char>) -> Result<ValueView, QueryErrorView> {
    match word_truth(upper) {
        Some(b) => Ok(ValueView::Boolean(b)),
        None => Err(QueryErrorView::Type("BOOL: cannot parse '"@ + s + "' as boolean"@)),
    }
}

/// `BOOL`: a value as a truth value.
pub open spec fn bool_result(value: ValueView) -> Result<ValueView, QueryErrorView> {
    match value {
        ValueView::Boolean(b) => Ok(ValueView::Boolean(b)),
        ValueView::Integer(i) => Ok(ValueView::Boolean(i != 0)),
        ValueView::Number(n) => Ok(ValueView::Boolean(n.magnitude != 0)),
        ValueView::String(s) => word_result(uppercase(s), s),
        ValueView::Null => Ok(ValueView::Null),
        _ => Err(QueryErrorView::Type("BOOL expects a boolean, number, integer, or string"@)),
    }
}

/// The words that `STR` writes are uppercase, and `FALSE` is none of the words for yes.
proof fn lemma_truth_words()
    ensures
        is_ascii_chars("TRUE"@),
        is_ascii_chars("FALSE"@),
        "TRUE"@.map_values(|c: char| ascii_upper(c)) == "TRUE"@,
        "FALSE"@.map_values(|c: char| ascii_upper(c)) == "FALSE"@,
        word_truth("TRUE"@) == Some(true),
        word_truth("FALSE"@) == Some(false),
{
    reveal_strlit("TRUE");
    reveal_strlit("YES");
    reveal_strlit("1");
    reveal_strlit("T");
    reveal_strlit("Y");
    reveal_strlit("FALSE");
    assert("FALSE"@.len() == 5 && "TRUE"@.len() == 4 && "YES"@.len() == 3 && "1"@.len() == 1
        && "T"@.len() == 1 && "Y"@.len() == 1);
    assert("TRUE"@.map_values(|c: char| ascii_upper(c)) =~= "TRUE"@);
    assert("FALSE"@.map_values(|c: char| ascii_upper(c)) =~= "FALSE"@);
}

/// A type error that quotes what it is about.
fn quoting_error(before: &str, quoted: &str, after: &str) -> (error: QueryError)
    ensures
        error@ == QueryErrorView::Type(before@ + quoted@ + after@),
{
    let mut message = before.to_owned();
    message.append(quoted);
    message.append(after);
    QueryError::Type(message)
}

impl Executor {
    /// `STR`: a value as a string.
    pub fn value_to_str(val: &Value) -> (result: Result<Value, QueryError>)
        ensures
            result_view(result) == str_result(val@),
    {
        match val {
            Value::String(s) => Ok(Value::String(s.clone())),
            Value::Integer(i) => Ok(Value::String(write_i64(*i))),
            Value::Number(n) => Ok(Value::String(n.to_text())),
            Value::Boolean(b) => Ok(
                Value::String(
                    if *b {
                        "TRUE".to_owned()
                    } else {
                        "FALSE".to_owned()
                    },
                ),
            ),
            Value::Date(d) => Ok(Value::String(d.to_text())),
            Value::Amount(a) => {
                let mut text = a.number.to_text();
                text.append(" ");
                text.append(a.currency.as_str());
                Ok(Value::String(text))
            },
            Value::Position(p) => Ok(Value::String(render_position(&**p))),
            Value::Inventory(inv) => Ok(Value::String(render_inventory(&**inv))),
            Value::Null => Ok(Value::Null),
            _ => Err(
                QueryError::Type(
                    "STR expects a string, integer, number, boolean, date, amount, position, or inventory".to_owned(),
                ),
            ),
        }
    }

    /// `INT`: a value as an integer. A number loses what stands behind its point.
    pub fn value_to_int(val: &Value) -> (result: Result<Value, QueryError>)
        ensures
            result_view(result) == int_result(val@),
    {
        match val {
            Value::Integer(i) => Ok(Value::Integer(*i)),
            Value::Number(n) => {
                proof {
                    n@.lemma_whole_of_truncated();
                }
                match n.trunc().to_i64() {
                    Some(i) => Ok(Value::Integer(i)),
                    None => Err(
                        quoting_error("INT: cannot convert '", n.to_text().as_str(), "' to integer"),
                    ),
                }
            },
            Value::Boolean(b) => Ok(
                Value::Integer(
                    if *b {
                        1
                    } else {
                        0
                    },
                ),
            ),
            Value::String(s) => match parse_i64(s.as_str()) {
                Some(i) => Ok(Value::Integer(i)),
                None => Err(quoting_error("INT: cannot parse '", s.as_str(), "' as integer")),
            },
            Value::Null => Ok(Value::Null),
            _ => Err(
                QueryError::Type("INT expects a number, integer, boolean, or string".to_owned()),
            ),
        }
    }

    /// `DECIMAL` of the string `s`, from what it was parsed to.
    pub fn parsed_to_decimal(parsed: Option<Number>, s: &str) -> (result: Result<Value, QueryError>)
        ensures
            result_view(result) == parsed_decimal_result(option_view(parsed), s@),
    {
        match parsed {
            Some(n) => Ok(Value::Number(n)),
            None => Err(quoting_error("DECIMAL: cannot parse '", s, "' as decimal")),
        }
    }

    /// `DECIMAL`: a value as a decimal number. It reads back what `STR` writes of a number,
    /// but for the minus sign of a zero.
    pub fn value_to_decimal(val: &Value) -> (result: Result<Value, QueryError>)
        ensures
            result_view(result) == decimal_result(val@),
            forall|n: NumberView|
                n.is_valid() && val@ == ValueView::String(#[trigger] n.text()) ==> result_view(
                    result,
                ) == Ok::<ValueView, QueryErrorView>(ValueView::Number(n.with_unsigned_zero())),
    {
        match val {
            Value::Number(n) => Ok(Value::Number(*n)),
            Value::Integer(i) => Ok(Value::Number(Number::from_i64(*i))),
            Value::Boolean(b) => Ok(
                Value::Number(
                    Number::from_i64(
                        if *b {
                            1
                        } else {
                            0
                        },
                    ),
                ),
            ),
            Value::String(s) => Self::parsed_to_decimal(parse_decimal(s.as_str()), s.as_str()),
            Value::Null => Ok(Value::Null),
            _ => Err(
                QueryError::Type("DECIMAL expects a number, integer, boolean, or string".to_owned()),
            ),
        }
    }

    /// `BOOL` of the string `s`, from its uppercase form.
    pub fn word_to_bool(upper: &str, s: &str) -> (result: Result<Value, QueryError>)
        ensures
            result_view(result) == word_result(upper@, s@),
    {
        if same_text(upper, "TRUE") || same_text(upper, "YES") || same_text(upper, "1")
            || same_text(upper, "T") || same_text(upper, "Y") {
            Ok(Value::Boolean(true))
        } else if same_text(upper, "FALSE") || same_text(upper, "NO") || same_text(upper, "0")
            || same_text(upper, "F") || same_text(upper, "N") || same_text(upper, "") {
            Ok(Value::Boolean(false))
        } else {
            Err(quoting_error("BOOL: cannot parse '", s, "' as boolean"))
        }
    }

    /// `BOOL`: a value as a truth value. A string is read whatever the case of its letters, and
    /// so is what `STR` writes of a truth value.
    pub fn value_to_bool(val: &Value) -> (result: Result<Value, QueryError>)
        ensures
            result_view(result) == bool_result(val@),
            val@ matches ValueView::String(s) ==> is_ascii_chars(s) ==> result_view(result)
                == word_result(s.map_values(|c: char| ascii_upper(c)), s),
            forall|b: bool| #[trigger]
                str_result(ValueView::Boolean(b)) == Ok::<ValueView, QueryErrorView>(val@)
                    ==> result_view(result) == Ok::<ValueView, QueryErrorView>(
                    ValueView::Boolean(b),
                ),
    {
        match val {
            Value::Boolean(b) => Ok(Value::Boolean(*b)),
            Value::Integer(i) => Ok(Value::Boolean(*i != 0)),
            Value::Number(n) => Ok(Value::Boolean(!n.is_zero())),
            Value::String(s) => {
                let upper = to_upper(s.as_str());
                proof {
                    lemma_truth_words();
                }
                Self::word_to_bool(upper.as_str(), s.as_str())
            },
            Value::Null => Ok(Value::Null),
            _ => Err(
                QueryError::Type("BOOL expects a boolean, number, integer, or string".to_owned()),
            ),
        }
    }
}

} // verus!
