//! Positions and inventories as text.
//!
//! Numbers are written at their own scale, with all their decimal places.
use crate::holdings::{Cost, CostView, Inventory, Position, PositionView};
use crate::number::{lemma_zero_value, Number};
use crate::sorting::{lemma_sorted_by_keys, places, rearranged, stable_order, stable_sort, SortKey};
use crate::text::{
    lemma_text_lt_irreflexive, lemma_text_lt_total, lemma_text_lt_transitive, same_text, text_lt,
    text_precedes,
};
use vstd::prelude::*;
use vstd::utf8::encode_utf8;

verus! {

/// Where a currency stands among others: the common ones first, then by the length of the name
/// in bytes.
pub open spec fn currency_rank(currency: Seq<char>) -> nat {
    if currency == "USD"@ {
        0
    } else if currency == "EUR"@ {
        1
    } else if currency == "JPY"@ {
        2
    } else if currency == "CAD"@ {
        3
    } else if currency == "GBP"@ {
        4
    } else if currency == "AUD"@ {
        5
    } else if currency == "NZD"@ {
        6
    } else if currency == "CHF"@ {
        7
    } else {
        8 + encode_utf8(currency).len()
    }
}

/// Where a currency stands among others. The common currencies come first; the others, in
/// order of their length, come after all of them.
pub fn currency_order(currency: &str) -> (order: u128)
    ensures
        order == currency_rank(currency@),
{
    if same_text(currency, "USD") {
        0
    } else if same_text(currency, "EUR") {
        1
    } else if same_text(currency, "JPY") {
        2
    } else if same_text(currency, "CAD") {
        3
    } else if same_text(currency, "GBP") {
        4
    } else if same_text(currency, "AUD") {
        5
    } else if same_text(currency, "NZD") {
        6
    } else if same_text(currency, "CHF") {
        7
    } else {
        8 + currency.as_bytes().len() as u128
    }
}

/// What the positions of an inventory are sorted by. The name of the currency itself is not
/// in it: two currencies of the same length are told apart by the numbers alone.
pub struct PositionRank {
    pub order: nat,
    pub cost_number: int,
    pub cost_currency: Seq<char>,
    pub number: int,
}

impl PositionRank {
    /// Whether this rank is less than another one.
    pub open spec fn precedes(self, other: PositionRank) -> bool {
        if self.order != other.order {
            self.order < other.order
        } else if self.cost_number != other.cost_number {
            self.cost_number < other.cost_number
        } else if self.cost_currency != other.cost_currency {
            text_lt(self.cost_currency, other.cost_currency)
        } else {
            self.number < other.number
        }
    }

    /// Whether this rank is less than another one or equal to it.
    pub open spec fn at_most(self, other: PositionRank) -> bool {
        self == other || self.precedes(other)
    }
}

/// The rank of a position: the currency's order, the number and the currency of the cost (zero
/// and nothing where there is none), and the number of units.
pub open spec fn position_rank(position: PositionView) -> PositionRank {
    PositionRank {
        order: currency_rank(position.units.currency),
        cost_number: match position.cost {
            Some(cost) => cost.number.value(),
            None => 0,
        },
        cost_currency: match position.cost {
            Some(cost) => cost.currency,
            None => Seq::empty(),
        },
        number: position.units.number.value(),
    }
}

/// Whether a position may stand before another one in the text of an inventory.
pub open spec fn position_at_most(a: PositionView, b: PositionView) -> bool {
    position_rank(a).at_most(position_rank(b))
}

/// The key by which a position is sorted.
pub struct PositionKey {
    pub order: u128,
    pub cost_number: Number,
    pub cost_currency: String,
    pub number: Number,
}

impl View for PositionKey {
    type V = PositionRank;

    open spec fn view(&self) -> PositionRank {
        PositionRank {
            order: self.order as nat,
            cost_number: self.cost_number@.value(),
            cost_currency: self.cost_currency@,
            number: self.number@.value(),
        }
    }
}

impl SortKey for PositionKey {
    open spec fn at_most(self, other: PositionKey) -> bool {
        self@.at_most(other@)
    }

    proof fn lemma_total(a: PositionKey, b: PositionKey) {
        lemma_text_lt_total(a@.cost_currency, b@.cost_currency);
    }

    proof fn lemma_transitive(a: PositionKey, b: PositionKey, c: PositionKey) {
        let (x, y, z) = (a@.cost_currency, b@.cost_currency, c@.cost_currency);
        lemma_text_lt_total(x, y);
        lemma_text_lt_total(y, z);
        if text_lt(x, y) && text_lt(y, z) {
            lemma_text_lt_transitive(x, y, z);
            lemma_text_lt_irreflexive(x);
        }
    }

    fn not_after(&self, other: &PositionKey) -> (not_after: bool) {
        proof {
            lemma_text_lt_total(self.cost_currency@, other.cost_currency@);
        }
        if self.order != other.order {
            self.order < other.order
        } else if self.cost_number.precedes(&other.cost_number) {
            true
        } else if other.cost_number.precedes(&self.cost_number) {
            false
        } else if !same_text(self.cost_currency.as_str(), other.cost_currency.as_str()) {
            text_precedes(self.cost_currency.as_str(), other.cost_currency.as_str())
        } else {
            !other.number.precedes(&self.number)
        }
    }
}

/// The key by which a position is sorted.
pub fn position_sort_key(p: &Position) -> (key: PositionKey)
    ensures
        key@ == position_rank(p@),
{
    let (cost_number, cost_currency) = match &p.cost {
        Some(cost) => (cost.number, cost.currency.clone()),
        None => (Number::from_i64(0), String::new()),
    };
    proof {
        if p.cost is None {
            lemma_zero_value(cost_number@);
        }
    }
    PositionKey {
        order: currency_order(p.units.currency.as_str()),
        cost_number,
        cost_currency,
        number: p.units.number,
    }
}

/// A cost in braces: number and currency, then the date and the quoted label where there are.
pub open spec fn cost_text(cost: CostView) -> Seq<char> {
    let date = match cost.date {
        Some(date) => ", "@ + date.text(),
        None => Seq::empty(),
    };
    let label = match cost.label {
        Some(label) => ", \""@ + label + "\""@,
        None => Seq::empty(),
    };
    " {"@ + cost.number.text() + " "@ + cost.currency + date + label + "}"@
}

/// A position as text: number and currency, with the cost behind them where it is held at one.
pub open spec fn position_text(position: PositionView) -> Seq<char> {
    let units = position.units.number.text() + " "@ + position.units.currency;
    match position.cost {
        Some(cost) => units + cost_text(cost),
        None => units,
    }
}

fn write_cost(c: &Cost) -> (text: String)
    ensures
        text@ == cost_text(c@),
{
    let mut text = " {".to_owned();
    text.append(c.number.to_text().as_str());
    text.append(" ");
    text.append(c.currency.as_str());
    let ghost head = text@;
    if let Some(date) = &c.date {
        text.append(", ");
        text.append(date.to_text().as_str());
    }
    let ghost dated = text@;
    proof {
        match c@.date {
            Some(date) => {
                assert(dated == head + (", "@ + date.text()));
            },
            None => {
                assert(dated == head + Seq::<char>::empty());
            },
        }
    }
    if let Some(label) = &c.label {
        text.append(", \"");
        text.append(label.as_str());
        text.append("\"");
    }
    proof {
        match c@.label {
            Some(label) => {
                assert(text@ == dated + (", \""@ + label + "\""@));
            },
            None => {
                assert(text@ == dated + Seq::<char>::empty());
            },
        }
    }
    text.append("}");
    text
}

/// A position as text.
pub fn render_position(p: &Position) -> (text: String)
    ensures
        text@ == position_text(p@),
{
    let mut text = p.units.number.to_text();
    text.append(" ");
    text.append(p.units.currency.as_str());
    if let Some(cost) = &p.cost {
        text.append(write_cost(cost).as_str());
    }
    text
}

/// Texts one behind the other, with `separator` between any two.
pub open spec fn joined(texts: Seq<Seq<char>>, separator: Seq<char>) -> Seq<char>
    decreases texts.len(),
{
    if texts.len() == 0 {
        Seq::empty()
    } else if texts.len() == 1 {
        texts[0]
    } else {
        joined(texts.drop_last(), separator) + separator + texts.last()
    }
}

/// The positions in the order in which the text of an inventory has them.
pub open spec fn listed_positions(positions: Seq<PositionView>) -> Seq<PositionView> {
    stable_sort(positions, |a: PositionView, b: PositionView| position_at_most(a, b))
}

/// An inventory as text: its sorted positions in parentheses, with commas between them.
pub open spec fn inventory_text(positions: Seq<PositionView>) -> Seq<char> {
    let texts = listed_positions(positions).map_values(|p: PositionView| position_text(p));
    "("@ + joined(texts, ", "@) + ")"@
}

/// An inventory as text. An empty one is a pair of parentheses, not a zero amount.
pub fn render_inventory(inv: &Inventory) -> (text: String)
    ensures
        text@ == inventory_text(inv@),
{
    let mut keys: Vec<PositionKey> = Vec::new();
    let mut i: usize = 0;
    while i < inv.positions.len()
        invariant
            i <= inv.positions.len(),
            keys.len() == i,
            forall|k: int| 0 <= k < i ==> #[trigger] keys@[k]@ == position_rank(inv@[k]),
        decreases inv.positions.len() - i,
    {
        keys.push(position_sort_key(&inv.positions[i]));
        i = i + 1;
    }
    let order = stable_order(&keys);
    let ghost listed = listed_positions(inv@);
    let ghost texts = listed.map_values(|p: PositionView| position_text(p));
    proof {
        let le = |a: PositionView, b: PositionView| position_at_most(a, b);
        assert forall|p: int, q: int| 0 <= p < keys@.len() && 0 <= q < keys@.len() implies (
        #[trigger] keys@[p].at_most(keys@[q]) == le(inv@[p], inv@[q])) by {
            assert(keys@[p]@ == position_rank(inv@[p]));
            assert(keys@[q]@ == position_rank(inv@[q]));
        }
        lemma_sorted_by_keys(keys@, places(order@), inv@, le);
        assert(listed == rearranged(inv@, places(order@)));
    }
    let mut text = "(".to_owned();
    let mut j: usize = 0;
    while j < order.len()
        invariant
            j <= order.len(),
            order@.len() == texts.len(),
            listed == rearranged(inv@, places(order@)),
            texts == listed.map_values(|p: PositionView| position_text(p)),
            forall|k: int| 0 <= k < order@.len() ==> 0 <= #[trigger] places(order@)[k] < inv@.len(),
            text@ == "("@ + joined(texts.take(j as int), ", "@),
        decreases order.len() - j,
    {
        let ghost done = texts.take(j as int);
        let ghost more = texts.take(j + 1);
        if j > 0 {
            text.append(", ");
        }
        assert(0 <= places(order@)[j as int] < inv@.len());
        text.append(render_position(&inv.positions[order[j]]).as_str());
        proof {
            assert(texts[j as int] == position_text(inv@[order@[j as int] as int]));
            assert(more.drop_last() == done);
            assert(more.last() == texts[j as int]);
            if j == 0 {
                assert(joined(done, ", "@) == Seq::<char>::empty());
                assert(joined(more, ", "@) == more[0]);
                assert(text@ == "("@ + joined(more, ", "@));
            } else {
                assert(text@ == "("@ + (joined(done, ", "@) + ", "@ + more.last()));
            }
        }
        j = j + 1;
    }
    assert(texts.take(j as int) == texts);
    text.append(")");
    text
}

} // verus!
