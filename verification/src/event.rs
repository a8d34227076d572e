use vstd::prelude::*;

verus! {

/// One visitor-protocol event, in mathematical form.
///
/// Keys and string payloads are character sequences; an absent key
/// marks a positional (array) element.  Floating-point and
/// lazily-formatted scalars carry the text they render as, since the
/// renderers treat that text as opaque.
#[allow(inconsistent_fields)]
pub enum EventV {
    U64 { key: Option<Seq<char>>, val: u64 },
    I64 { key: Option<Seq<char>>, val: i64 },
    F64 { key: Option<Seq<char>>, text: Seq<char> },
    Bool { key: Option<Seq<char>>, val: bool },
    Null { key: Option<Seq<char>> },
    Str { key: Option<Seq<char>>, val: Seq<char> },
    Fmt { key: Option<Seq<char>>, text: Seq<char> },
    MapOpen { key: Option<Seq<char>> },
    MapClose { key: Option<Seq<char>> },
    ArrOpen { key: Option<Seq<char>> },
    ArrClose { key: Option<Seq<char>> },
}

impl EventV {
    /// Close events only write their bracket: no pending separator,
    /// no key, and they do not count as an emitted item.
    pub open spec fn is_close(self) -> bool {
        self is MapClose || self is ArrClose
    }
}

/// The mathematical view of an optional key argument.
pub open spec fn key_view(key: Option<&str>) -> Option<Seq<char>> {
    match key {
        Some(k) => Some(k@),
        None => None,
    }
}

/// True when some event in the stream emits an item (anything but a
/// bare close bracket); exactly then a renderer counts as non-empty.
pub open spec fn stream_nonempty(events: Seq<EventV>) -> bool
    decreases events.len(),
{
    if events.len() == 0 {
        false
    } else {
        stream_nonempty(events.drop_last()) || !events.last().is_close()
    }
}

} // verus!
