//! Reconciles tracked time entries into a monthly invoice summary with exact
//! rational arithmetic, and keeps track of which entries were already billed.
//!
//! A run goes through four stages:
//!
//! 1. [`window`] gives the date window of the month in the account's time
//!    zone, built on the calendar of [`calendar`].
//! 2. [`aggregate`] filters the entries of the window and adds up the
//!    seconds per description for one client. It consults the billed flags
//!    of [`store`], resolves clients through [`cache`], and asks its caller
//!    for every fetch. [`entry`] and [`summary`] hold its input and output.
//! 3. [`billing`] turns the summary into ranked, priced lines with totals
//!    and the rounding deviation, in the exact fractions of [`rational`];
//!    [`render`] and [`display`] write them out.
//! 4. [`confirm`] reads the operator's answer, and [`store`] takes the
//!    batch once it is written.
//!
//! [`guarantees`] holds what is proved of whole runs, [`fraction`] the
//! arithmetic of fractions that the proofs rest on, and [`text`] what the
//! library needs of strings.

pub mod fraction;
pub mod rational;
pub mod store;
pub mod cache;
pub mod text;
pub mod entry;
pub mod summary;
pub mod aggregate;
pub mod billing;
pub mod guarantees;
pub mod calendar;
pub mod window;
pub mod display;
pub mod render;
pub mod confirm;
