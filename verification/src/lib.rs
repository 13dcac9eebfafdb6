//! Pricing of bakery carts.
//!
//! The engine decides what a cart is charged for: how many full groups of an
//! item go at a bulk price, how many units go singly, and which discount
//! follows. Amounts of money pass through untouched, in the caller's own
//! number type `P`; the arithmetic on them is the caller's.

pub mod calendar;
pub mod catalog;
pub mod error;
pub mod pricing;
pub mod sale;
pub mod schedule;
pub mod shop;

pub use crate::calendar::{Month, ReferenceDate, Weekday};
pub use crate::catalog::{BulkPrice, Item};
pub use crate::error::PricingError;
pub use crate::pricing::{Cart, Charge, Parcel};
pub use crate::sale::Sale;
pub use crate::schedule::{resolve_active_sales, Applies, ScheduledSale};
pub use crate::shop::{collect_parcels, find_item, Bakery, ItemIdAndAmount, StoredCart};
