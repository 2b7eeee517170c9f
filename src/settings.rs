use vstd::prelude::*;

use crate::model::Setting;
use crate::tokens::compare_tokens;

verus! {

/// Key of the setting that holds the display currency symbol.
pub const CURRENCY_SYMBOL_KEY: &'static str = "Currency_Symbol";

/// The values of the settings whose key is `key`, joined in order.
pub open spec fn values_for(s: Seq<Setting>, key: Seq<char>) -> Seq<char>
    decreases s.len(),
{
    if s.len() == 0 {
        Seq::empty()
    } else if s.last().key@ == key {
        values_for(s.drop_last(), key) + s.last().value@
    } else {
        values_for(s.drop_last(), key)
    }
}

/// The display currency symbol: the values of all currency-symbol settings,
/// joined in order; empty when there is none.
pub fn get_setting_currency_symbol(settings: &Vec<Setting>) -> (r: String)
    ensures
        r@ == values_for(settings@, CURRENCY_SYMBOL_KEY@),
{
    let mut symbol = String::new();
    let mut i: usize = 0;
    while i < settings.len()
        invariant
            i <= settings@.len(),
            symbol@ == values_for(settings@.take(i as int), CURRENCY_SYMBOL_KEY@),
        decreases settings@.len() - i,
    {
        assert(settings@.take(i + 1).drop_last() =~= settings@.take(i as int));
        let s = &settings[i];
        if compare_tokens(s.key.as_str(), CURRENCY_SYMBOL_KEY) == 0 {
            symbol.append(s.value.as_str());
        }
        i = i + 1;
    }
    assert(settings@.take(i as int) =~= settings@);
    symbol
}

} // verus!
