//! What holds of the text of positions and inventories, whatever they hold.
use crate::functions::str_result;
use crate::holdings::{CostView, PositionView};
use crate::number::NumberView;
use crate::render::{
    cost_text, currency_rank, inventory_text, joined, listed_positions, position_at_most,
    position_rank, position_text,
};
use crate::sorting::{
    is_stable_order, is_total_preorder, law_stable_sort, rearranged, stable_sort,
};
use crate::text::{
    fixed_digits, is_digit, lemma_digits_spell, lemma_text_lt_irreflexive, lemma_text_lt_total,
    lemma_text_lt_transitive, text_lt,
};
use crate::text_laws::{law_number_characters, law_numbers_read_apart};
use crate::value::ValueView;
use vstd::arithmetic::power::pow;
use vstd::prelude::*;
use vstd::utf8::encode_utf8;

verus! {

/// An empty inventory is a pair of parentheses, not a zero amount.
pub proof fn law_empty_inventory()
    ensures
        inventory_text(Seq::empty()) == "()"@,
{
    reveal_strlit("(");
    reveal_strlit(")");
    reveal_strlit("()");
    let none = Seq::<PositionView>::empty();
    assert(listed_positions(none) =~= none);
    assert(listed_positions(none).map_values(|p: PositionView| position_text(p)) =~= Seq::<
        Seq<char>,
    >::empty());
    assert(inventory_text(none) =~= "()"@);
}

/// An inventory of one position is that position in parentheses.
pub proof fn law_single_position(position: PositionView)
    ensures
        inventory_text(seq![position]) == "("@ + position_text(position) + ")"@,
{
    let one = seq![position];
    let le = |a: PositionView, b: PositionView| position_at_most(a, b);
    assert(one.drop_last() == Seq::<PositionView>::empty());
    assert(stable_sort(one.drop_last(), le) == Seq::<PositionView>::empty());
    assert(listed_positions(one) =~= one);
    assert(listed_positions(one).map_values(|p: PositionView| position_text(p)) =~= seq![
        position_text(position),
    ]);
}

/// A position that is not held at cost has the text of its units as an amount.
pub proof fn law_position_without_cost(position: PositionView)
    requires
        position.cost is None,
    ensures
        str_result(ValueView::Position(position)) == str_result(ValueView::Amount(position.units)),
{
}

/// Whether the currency is one of those that come first.
pub open spec fn is_common_currency(currency: Seq<char>) -> bool {
    ||| currency == "USD"@
    ||| currency == "EUR"@
    ||| currency == "JPY"@
    ||| currency == "CAD"@
    ||| currency == "GBP"@
    ||| currency == "AUD"@
    ||| currency == "NZD"@
    ||| currency == "CHF"@
}

/// The common currencies come before all others, and no two of them have the same rank; of
/// the others the one with fewer bytes comes first.
pub proof fn law_currency_order(a: Seq<char>, b: Seq<char>)
    ensures
        is_common_currency(a) && !is_common_currency(b) ==> currency_rank(a) < currency_rank(b),
        is_common_currency(a) && is_common_currency(b) && a != b ==> currency_rank(a)
            != currency_rank(b),
        !is_common_currency(a) && !is_common_currency(b) ==> (currency_rank(a) < currency_rank(b)
            <==> encode_utf8(a).len() < encode_utf8(b).len()),
{
}

proof fn lemma_position_order()
    ensures
        is_total_preorder(|a: PositionView, b: PositionView| position_at_most(a, b)),
{
    let le = |a: PositionView, b: PositionView| position_at_most(a, b);
    assert forall|a: PositionView, b: PositionView| #[trigger] le(a, b) || le(b, a) by {
        lemma_text_lt_total(position_rank(a).cost_currency, position_rank(b).cost_currency);
    }
    assert forall|a: PositionView, b: PositionView, c: PositionView| #[trigger]
        le(a, b) && #[trigger] le(b, c) implies le(a, c) by {
        let (x, y, z) = (
            position_rank(a).cost_currency,
            position_rank(b).cost_currency,
            position_rank(c).cost_currency,
        );
        lemma_text_lt_total(x, y);
        lemma_text_lt_total(y, z);
        if text_lt(x, y) && text_lt(y, z) {
            lemma_text_lt_transitive(x, y, z);
            lemma_text_lt_irreflexive(x);
        }
    }
}

/// The name of a currency breaks no ties: positions without cost whose currencies have the same
/// rank are in order of their numbers.
pub proof fn law_numbers_break_ties(a: PositionView, b: PositionView)
    requires
        a.cost is None,
        b.cost is None,
        currency_rank(a.units.currency) == currency_rank(b.units.currency),
    ensures
        position_at_most(a, b) <==> a.units.number.value() <= b.units.number.value(),
{
    lemma_text_lt_irreflexive(Seq::empty());
}

/// The text of an inventory lists every position once, in order of the rank of its currency,
/// then of its cost, then of its number; positions that are equal in these stay in their order.
pub proof fn law_inventory_lists_positions(positions: Seq<PositionView>) -> (order: Seq<int>)
    ensures
        is_stable_order(
            positions,
            |a: PositionView, b: PositionView| position_at_most(a, b),
            order,
        ),
        listed_positions(positions) == rearranged(positions, order),
{
    lemma_position_order();
    law_stable_sort(positions, |a: PositionView, b: PositionView| position_at_most(a, b))
}

proof fn lemma_fixed_digits_shape(n: nat, width: nat)
    ensures
        fixed_digits(n, width).len() == width,
        forall|i: int| 0 <= i < width ==> is_digit(#[trigger] fixed_digits(n, width)[i]),
    decreases width,
{
    if width > 0 {
        lemma_fixed_digits_shape(n / 10, (width - 1) as nat);
    }
}

/// A number with decimal places is written with all of them, also where they are zeros.
pub proof fn law_numbers_keep_their_places(n: NumberView)
    requires
        n.scale > 0,
    ensures
        n.text().len() > n.scale + 1,
        n.text()[n.text().len() - n.scale - 1] == '.',
        forall|i: int|
            n.text().len() - n.scale <= i < n.text().len() ==> is_digit(#[trigger] n.text()[i]),
{
    let unit = pow(10, n.scale);
    let rest = fixed_digits((n.magnitude as int % unit) as nat, n.scale);
    lemma_fixed_digits_shape((n.magnitude as int % unit) as nat, n.scale);
    lemma_digits_spell((n.magnitude as int / unit) as nat);
    assert forall|i: int| n.text().len() - n.scale <= i < n.text().len() implies is_digit(
        #[trigger] n.text()[i],
    ) by {
        assert(n.text()[i] == rest[i - (n.text().len() - n.scale)]);
    }
}

/// A position is written as the number and the currency of its units, whatever they are, with a
/// space between them. Where it is held at cost, whatever the sign of its units, there follow in
/// braces the number and the currency of the cost, then the date where there is one and the
/// quoted label where there is one, each behind a comma.
pub proof fn law_written_positions(position: PositionView)
    ensures
        ({
            let units = position.units.number.text() + " "@ + position.units.currency;
            &&& position.cost is None ==> position_text(position) == units
            &&& position.cost is Some ==> {
                let cost = position.cost->0;
                let lot = " {"@ + cost.number.text() + " "@ + cost.currency;
                let date = if cost.date is Some {
                    ", "@ + cost.date->0.text()
                } else {
                    Seq::empty()
                };
                let label = if cost.label is Some {
                    ", \""@ + cost.label->0 + "\""@
                } else {
                    Seq::empty()
                };
                position_text(position) == units + (lot + date + label + "}"@)
            }
        }),
{
}

proof fn lemma_same_front(front: Seq<char>, x: Seq<char>, y: Seq<char>)
    requires
        front + x == front + y,
    ensures
        x == y,
{
    assert(x =~= (front + x).skip(front.len() as int));
    assert(y =~= (front + y).skip(front.len() as int));
}

proof fn lemma_same_back(x: Seq<char>, y: Seq<char>, back: Seq<char>)
    requires
        x + back == y + back,
    ensures
        x == y,
{
    assert((x + back).len() == x.len() + back.len());
    assert((y + back).len() == y.len() + back.len());
    assert(x =~= (x + back).take(x.len() as int));
    assert(y =~= (y + back).take(y.len() as int));
}

proof fn lemma_regroup(x: Seq<char>, y: Seq<char>, z: Seq<char>)
    ensures
        x + y + z == x + (y + z),
{
    assert(x + y + z =~= x + (y + z));
}

/// Behind a number and a space, nothing can be taken for another number.
proof fn lemma_number_ends_at_space(a: NumberView, b: NumberView, x: Seq<char>, y: Seq<char>)
    requires
        a.text() + " "@ + x == b.text() + " "@ + y,
    ensures
        a == b,
        x == y,
{
    reveal_strlit(" ");
    let s = a.text() + " "@ + x;
    let t = b.text() + " "@ + y;
    let (m, n) = (a.text().len() as int, b.text().len() as int);
    assert(s[m] == ' ' && t[n] == ' ');
    if m < n {
        law_number_characters(b, m);
        assert(t[m] == b.text()[m]);
    } else if n < m {
        law_number_characters(a, n);
        assert(s[n] == a.text()[n]);
    }
    assert(a.text() =~= s.take(m));
    assert(b.text() =~= t.take(m));
    law_numbers_read_apart(a, b);
    assert(x =~= s.skip(m + 1));
    assert(y =~= t.skip(m + 1));
}

/// Two positions at cost that differ, but not in the date or the label of their costs, have
/// different texts, as long as either the currency of their units or their cost is the same.
pub proof fn law_positions_read_apart(a: PositionView, b: PositionView)
    requires
        position_text(a) == position_text(b),
        a.cost is Some,
        b.cost is Some,
        a.units.currency == b.units.currency || a.cost == b.cost,
        a.cost->0.date == b.cost->0.date,
        a.cost->0.label == b.cost->0.label,
    ensures
        a == b,
{
    let (c, d) = (a.cost->0, b.cost->0);
    let (t, u) = (cost_text(c), cost_text(d));
    lemma_regroup(a.units.number.text() + " "@, a.units.currency, t);
    lemma_regroup(b.units.number.text() + " "@, b.units.currency, u);
    lemma_number_ends_at_space(
        a.units.number,
        b.units.number,
        a.units.currency + t,
        b.units.currency + u,
    );
    if a.units.currency == b.units.currency {
        lemma_same_front(a.units.currency, t, u);
        lemma_costs_read_apart(c, d);
    } else {
        lemma_same_back(a.units.currency, b.units.currency, t);
    }
}

/// Two costs with the same date and label that have the same text are equal.
proof fn lemma_costs_read_apart(c: CostView, d: CostView)
    requires
        cost_text(c) == cost_text(d),
        c.date == d.date,
        c.label == d.label,
    ensures
        c == d,
{
    let date = match c.date {
        Some(date) => ", "@ + date.text(),
        None => Seq::empty(),
    };
    let label = match c.label {
        Some(label) => ", \""@ + label + "\""@,
        None => Seq::empty(),
    };
    let x = " {"@ + c.number.text() + " "@ + c.currency;
    let y = " {"@ + d.number.text() + " "@ + d.currency;
    lemma_same_back(x + date + label, y + date + label, "}"@);
    lemma_same_back(x + date, y + date, label);
    lemma_same_back(x, y, date);
    lemma_regroup(" {"@, c.number.text(), " "@);
    lemma_regroup(" {"@, d.number.text(), " "@);
    lemma_regroup(" {"@, c.number.text() + " "@, c.currency);
    lemma_regroup(" {"@, d.number.text() + " "@, d.currency);
    lemma_same_front(
        " {"@,
        c.number.text() + " "@ + c.currency,
        d.number.text() + " "@ + d.currency,
    );
    lemma_number_ends_at_space(c.number, d.number, c.currency, d.currency);
}

/// A position with a cost never has the text that it would have without the cost.
pub proof fn law_costs_are_shown(position: PositionView)
    requires
        position.cost is Some,
    ensures
        position_text(position) != position_text(PositionView { cost: None, ..position }),
        position_text(position).len() > position_text(
            PositionView { cost: None, ..position },
        ).len(),
{
    law_written_positions(position);
    law_written_positions(PositionView { cost: None, ..position });
    reveal_strlit("}");
}

/// The place of a currency: eight currencies in a fixed order, then all others by their length
/// in bytes.
pub proof fn law_currency_places(currency: Seq<char>)
    ensures
        currency_rank("USD"@) == 0,
        currency_rank("EUR"@) == 1,
        currency_rank("JPY"@) == 2,
        currency_rank("CAD"@) == 3,
        currency_rank("GBP"@) == 4,
        currency_rank("AUD"@) == 5,
        currency_rank("NZD"@) == 6,
        currency_rank("CHF"@) == 7,
        !(currency == "USD"@ || currency == "EUR"@ || currency == "JPY"@ || currency == "CAD"@
            || currency == "GBP"@ || currency == "AUD"@ || currency == "NZD"@ || currency == "CHF"@)
            ==> currency_rank(currency) == 8 + encode_utf8(currency).len(),
{
    reveal_strlit("USD");
    reveal_strlit("EUR");
    reveal_strlit("JPY");
    reveal_strlit("CAD");
    reveal_strlit("GBP");
    reveal_strlit("AUD");
    reveal_strlit("NZD");
    reveal_strlit("CHF");
    assert("USD"@[0] == 'U' && "EUR"@[0] == 'E' && "JPY"@[0] == 'J' && "GBP"@[0] == 'G');
    assert("AUD"@[0] == 'A' && "NZD"@[0] == 'N' && "CAD"@[1] == 'A' && "CHF"@[1] == 'H');
    assert("CAD"@[0] == 'C' && "CHF"@[0] == 'C');
}

/// Texts are joined with the separator between any two neighbours.
pub proof fn law_joined_texts(texts: Seq<Seq<char>>, text: Seq<char>, separator: Seq<char>)
    ensures
        joined(Seq::empty(), separator) == Seq::<char>::empty(),
        joined(seq![text], separator) == text,
        texts.len() > 0 ==> joined(texts.push(text), separator) == joined(texts, separator)
            + separator + text,
{
    assert(texts.push(text).drop_last() == texts);
}

/// Whether a position is listed before another one: by the place of its currency, then by the
/// number of its cost, then by the currency of its cost, then by its own number. Without a cost
/// these are zero and nothing.
pub open spec fn listed_before(a: PositionView, b: PositionView) -> bool {
    let cost_of = |p: PositionView|
        if p.cost is Some {
            p.cost->0.number.value()
        } else {
            0
        };
    let lot_of = |p: PositionView|
        if p.cost is Some {
            p.cost->0.currency
        } else {
            Seq::empty()
        };
    let (x, y) = (currency_rank(a.units.currency), currency_rank(b.units.currency));
    ||| x < y
    ||| x == y && cost_of(a) < cost_of(b)
    ||| x == y && cost_of(a) == cost_of(b) && text_lt(lot_of(a), lot_of(b))
    ||| x == y && cost_of(a) == cost_of(b) && lot_of(a) == lot_of(b) && a.units.number.value()
        < b.units.number.value()
}

/// The text of an inventory is its positions in parentheses, with commas between them. Each
/// position is there once, in the order of [`listed_before`]; positions that are equal in it
/// stay in the order of the inventory.
pub proof fn law_written_inventories(positions: Seq<PositionView>) -> (order: Seq<int>)
    ensures
        order.len() == positions.len(),
        forall|i: int| 0 <= i < order.len() ==> 0 <= #[trigger] order[i] < positions.len(),
        forall|p: int| 0 <= p < positions.len() ==> #[trigger] order.contains(p),
        forall|i: int, j: int|
            0 <= i < j < order.len() ==> {
                let a = positions[#[trigger] order[i]];
                let b = positions[#[trigger] order[j]];
                listed_before(a, b) || (!listed_before(b, a) && order[i] < order[j])
            },
        inventory_text(positions) == "("@ + joined(
            Seq::new(order.len(), |i: int| position_text(positions[order[i]])),
            ", "@,
        ) + ")"@,
{
    let le = |a: PositionView, b: PositionView| position_at_most(a, b);
    let order = law_inventory_lists_positions(positions);
    let texts = Seq::new(order.len(), |i: int| position_text(positions[order[i]]));
    assert(listed_positions(positions).map_values(|p: PositionView| position_text(p)) =~= texts);
    assert forall|i: int, j: int| 0 <= i < j < order.len() implies {
        let a = positions[#[trigger] order[i]];
        let b = positions[#[trigger] order[j]];
        listed_before(a, b) || (!listed_before(b, a) && order[i] < order[j])
    } by {
        let a = positions[order[i]];
        let b = positions[order[j]];
        assert(crate::sorting::belongs_before(positions, le, order[i], order[j]));
        lemma_text_lt_irreflexive(position_rank(a).cost_currency);
        lemma_text_lt_irreflexive(position_rank(b).cost_currency);
    }
    order
}

/// What a position is sorted by: the place of its currency, the number and the currency of its
/// cost, or zero and nothing without a cost, and its own number.
pub proof fn law_sort_key_of_positions(position: PositionView)
    ensures
        position_rank(position).order == currency_rank(position.units.currency),
        position_rank(position).number == position.units.number.value(),
        position.cost is Some ==> position_rank(position).cost_number
            == position.cost->0.number.value() && position_rank(position).cost_currency
            == position.cost->0.currency,
        position.cost is None ==> position_rank(position).cost_number == 0 && position_rank(
            position,
        ).cost_currency == Seq::<char>::empty(),
{
}

} // verus!
