//! The periodic notification: a counter that a client can watch.

use crate::text::{signed_text, signed_decimal};
use vstd::prelude::*;
use vstd::string::*;

verus! {

/// The number of notifications after which the stream ends.
pub const LIMIT: i32 = 100;

/// The text of the notification with a given number.
pub open spec fn notification(count: int) -> Seq<char> {
    "hi! ("@ + signed_decimal(count) + ")"@
}

/// The counter after one more tick, and the notification to send: the next
/// number, or nothing once the limit is reached, which also sets the counter
/// back to zero.
pub open spec fn ticked(count: i32) -> (i32, Option<Seq<char>>) {
    if count >= LIMIT {
        (0i32, None)
    } else {
        ((count + 1) as i32, Some(notification(count + 1)))
    }
}

/// Advances the counter by one tick.
pub fn tick(count: i32) -> (r: (i32, Option<String>))
    ensures
        r.0 == ticked(count).0,
        match ticked(count).1 {
            Some(text) => r.1 matches Some(t) && t@ == text,
            None => r.1 is None,
        },
{
    if count >= LIMIT {
        (0, None)
    } else {
        let mut text = "hi! (".to_string();
        text.append(signed_text(count + 1).as_str());
        text.append(")");
        (count + 1, Some(text))
    }
}

} // verus!
