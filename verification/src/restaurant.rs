//! A restaurant's menu items and kitchen routines.

use vstd::prelude::*;
use vstd::string::StringExecFns;

verus! {

/// Seats a party; the waitlist itself is not modelled.
pub fn add_to_waitlist() {
}

/// Hands an order to the kitchen.
pub fn serve_order() {
}

/// Prepares an order.
pub fn cook_order() {
}

/// Re-cooks an order and serves it again.
pub fn fix_incorrect_order() {
    cook_order();
    serve_order();
}

/// A breakfast: the customer picks the toast, the kitchen picks the
/// seasonal fruit.
pub struct Breakfast {
    pub toast: String,
    seasonal_fruit: String,
}

impl Breakfast {
    /// The fruit the kitchen chose.
    pub closed spec fn spec_fruit(&self) -> Seq<char> {
        self.seasonal_fruit@
    }

    /// The toast the customer picked.
    pub closed spec fn spec_toast(&self) -> Seq<char> {
        self.toast@
    }

    /// The summer breakfast: the given toast, served with peaches.
    pub fn summer(toast: &str) -> (b: Breakfast)
        ensures
            b.spec_toast() == toast@,
            b.spec_fruit() == "peaches"@,
    {
        Breakfast {
            toast: String::from_str(toast),
            seasonal_fruit: String::from_str("peaches"),
        }
    }
}

/// The appetizers on offer.
pub enum Appetizer {
    Soup,
    Salad,
}

} // verus!
