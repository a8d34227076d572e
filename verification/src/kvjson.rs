use crate::event::{key_view, stream_nonempty, EventV};
use crate::numtext::{bool_str, bool_text, dec_digits, hex_digit, hex_digit_char, i64_text,
    int_text, lemma_unhex_hex_digit, push_char, u64_text, unhex};
use crate::sink::Sink;
use vstd::prelude::*;
use vstd::string::StrSliceExecFns;
use vstd::string::StringExecFns;

verus! {

// ---------------------------------------------------------------------------
// The compact-JSON encoding, mathematically.
// ---------------------------------------------------------------------------

/// Characters a JSON string literal cannot hold bare: the quote, the
/// backslash, and control characters.
pub open spec fn needs_json_esc(c: char) -> bool {
    c == '"' || c == '\\' || (c as u32) < 0x20
}

/// One character of a JSON string literal: quote and backslash get a
/// leading backslash, control characters become `\u00XX` with the hex
/// digits uppercase, everything else passes through.
pub open spec fn json_esc_char(c: char) -> Seq<char> {
    if c == '"' || c == '\\' {
        seq!['\\', c]
    } else if (c as u32) < 0x20 {
        seq!['\\', 'u', '0', '0', hex_digit((c as u32) as int / 16), hex_digit(
            (c as u32) as int % 16,
        )]
    } else {
        seq![c]
    }
}

/// The body of a JSON string literal, character by character.
pub open spec fn json_esc_chars(s: Seq<char>) -> Seq<char>
    decreases s.len(),
{
    if s.len() == 0 {
        Seq::empty()
    } else {
        json_esc_chars(s.drop_last()) + json_esc_char(s.last())
    }
}

/// True when the string holds a character that must be escaped.
pub open spec fn has_json_esc(s: Seq<char>) -> bool {
    exists|i: int| 0 <= i < s.len() && needs_json_esc(s[i])
}

/// A JSON string literal: always double-quoted.
pub open spec fn json_quoted(s: Seq<char>) -> Seq<char> {
    seq!['"'] + json_esc_chars(s) + seq!['"']
}

/// What an item's key contributes: nothing for a positional element,
/// else the quoted key and a colon.
pub open spec fn keypart(key: Option<Seq<char>>) -> Seq<char> {
    match key {
        None => Seq::empty(),
        Some(k) => json_quoted(k) + seq![':'],
    }
}

/// The pending separator an event leaves behind: empty just inside a
/// freshly opened container, a comma otherwise.
pub open spec fn pending_after(e: EventV) -> Seq<char> {
    if e is MapOpen || e is ArrOpen {
        Seq::empty()
    } else {
        seq![',']
    }
}

/// The pending separator after a whole stream, starting from `p0`.
pub open spec fn stream_pending(events: Seq<EventV>, p0: Seq<char>) -> Seq<char> {
    if events.len() == 0 {
        p0
    } else {
        pending_after(events.last())
    }
}

/// The text one event adds, given the pending separator before it.
pub open spec fn event_text(e: EventV, pending: Seq<char>) -> Seq<char> {
    match e {
        EventV::U64 { key, val } => pending + keypart(key) + dec_digits(val as int),
        EventV::I64 { key, val } => pending + keypart(key) + int_text(val as int),
        EventV::F64 { key, text } => pending + keypart(key) + text,
        EventV::Bool { key, val } => pending + keypart(key) + bool_text(val),
        EventV::Null { key } => pending + keypart(key) + seq!['n', 'u', 'l', 'l'],
        EventV::Str { key, val } => pending + keypart(key) + json_quoted(val),
        EventV::Fmt { key, text } => pending + keypart(key) + json_quoted(text),
        EventV::MapOpen { key } => pending + keypart(key) + seq!['{'],
        EventV::MapClose { key: _ } => seq!['}'],
        EventV::ArrOpen { key } => pending + keypart(key) + seq!['['],
        EventV::ArrClose { key: _ } => seq![']'],
    }
}

/// Everything a stream of events writes, starting with pending
/// separator `p0` before the first item.
pub open spec fn stream_output(events: Seq<EventV>, p0: Seq<char>) -> Seq<char>
    decreases events.len(),
{
    if events.len() == 0 {
        Seq::empty()
    } else {
        stream_output(events.drop_last(), p0) + event_text(
            events.last(),
            stream_pending(events.drop_last(), p0),
        )
    }
}

/// What a whole render leaves in the sink beyond what was already
/// there: the stream's output, and the suffix only when the stream
/// emitted at least one item.
pub open spec fn rendered(events: Seq<EventV>, p0: Seq<char>, suffix: Seq<char>) -> Seq<char> {
    stream_output(events, p0) + if stream_nonempty(events) {
        suffix
    } else {
        Seq::<char>::empty()
    }
}

/// Appending one event extends the output by that event's text and
/// leaves that event's pending separator behind.
pub proof fn lemma_stream_push(events: Seq<EventV>, p0: Seq<char>, e: EventV)
    ensures
        stream_output(events.push(e), p0) == stream_output(events, p0) + event_text(
            e,
            stream_pending(events, p0),
        ),
        stream_pending(events.push(e), p0) == pending_after(e),
        stream_nonempty(events.push(e)) == (stream_nonempty(events) || !e.is_close()),
{
    assert(events.push(e).drop_last() =~= events);
    assert(events.push(e).last() == e);
}

/// A string with nothing to escape reads the same escaped.
proof fn lemma_esc_chars_identity(s: Seq<char>)
    requires
        forall|i: int| 0 <= i < s.len() ==> !needs_json_esc(s[i]),
    ensures
        json_esc_chars(s) == s,
    decreases s.len(),
{
    if s.len() == 0 {
        assert(json_esc_chars(s) =~= s);
    } else {
        lemma_esc_chars_identity(s.drop_last());
        assert(json_esc_chars(s) =~= s);
    }
}

// ---------------------------------------------------------------------------
// The escaping, executably.
// ---------------------------------------------------------------------------

/// Decides whether any character of the string must be escaped.
fn str_has_json_esc(val: &str) -> (r: bool)
    ensures
        r == has_json_esc(val@),
{
    let n: usize = val.unicode_len();
    let mut i: usize = 0;
    while i < n
        invariant
            n == val@.len(),
            i <= n,
            forall|j: int| 0 <= j < i ==> !needs_json_esc(val@[j]),
        decreases n - i,
    {
        let c = val.get_char(i);
        if c == '"' || c == '\\' || (c as u32) < 0x20 {
            return true;
        }
        i = i + 1;
    }
    false
}

/// Appends a string as a JSON string literal, quotes included.
pub fn push_str_literal(out: &mut String, val: &str)
    ensures
        final(out)@ == old(out)@ + json_quoted(val@),
{
    push_char(out, '"');
    if str_has_json_esc(val) {
        let n: usize = val.unicode_len();
        let mut i: usize = 0;
        while i < n
            invariant
                n == val@.len(),
                i <= n,
                out@ == old(out)@ + seq!['"'] + json_esc_chars(val@.take(i as int)),
            decreases n - i,
        {
            let c = val.get_char(i);
            if c == '"' || c == '\\' {
                push_char(out, '\\');
                push_char(out, c);
            } else if (c as u32) < 0x20 {
                let code: u32 = c as u32;
                push_char(out, '\\');
                push_char(out, 'u');
                push_char(out, '0');
                push_char(out, '0');
                push_char(out, hex_digit_char((code / 16) as u8));
                push_char(out, hex_digit_char((code % 16) as u8));
            } else {
                push_char(out, c);
            }
            proof {
                assert(val@.take(i + 1).drop_last() =~= val@.take(i as int));
                assert(val@.take(i + 1).last() == val@[i as int]);
                assert(out@ =~= old(out)@ + seq!['"'] + json_esc_chars(val@.take(i + 1)));
            }
            i = i + 1;
        }
        proof {
            assert(val@.take(n as int) =~= val@);
        }
    } else {
        out.append(val);
        proof {
            lemma_esc_chars_identity(val@);
            assert(out@ =~= old(out)@ + seq!['"'] + json_esc_chars(val@));
        }
    }
    push_char(out, '"');
    proof {
        assert(out@ =~= old(out)@ + json_quoted(val@));
    }
}

// ---------------------------------------------------------------------------
// The renderer.
// ---------------------------------------------------------------------------

/// JSON renderer: consumes visitor events and writes compact JSON
/// text into its sink.
///
/// State per render: the pending separator (the caller's first
/// separator until the first item, a comma afterwards, empty just
/// inside an open container), whether anything was emitted, and the
/// sticky error flag that a refused write sets for good.
pub struct Visitor {
    sink: Sink,
    prefix: String,
    empty: bool,
    error: bool,
    trace: Ghost<Seq<EventV>>,
    first: Ghost<Seq<char>>,
    base: Ghost<Seq<char>>,
}

impl Visitor {
    /// The events this renderer has consumed so far.
    pub closed spec fn events(&self) -> Seq<EventV> {
        self.trace@
    }

    /// The pending separator the renderer was created with.
    pub closed spec fn prefix0(&self) -> Seq<char> {
        self.first@
    }

    /// What the sink already held when the renderer was created.
    pub closed spec fn sink0(&self) -> Seq<char> {
        self.base@
    }

    /// The sink's capacity limit, if any.
    pub closed spec fn cap(&self) -> Option<usize> {
        self.sink.limit()
    }

    /// What the sink holds now.
    pub closed spec fn written(&self) -> Seq<char> {
        self.sink.contents()
    }

    /// The pending separator to be written before the next item.
    pub closed spec fn pending(&self) -> Seq<char> {
        self.prefix@
    }

    /// True once some item has been emitted.
    pub closed spec fn emitted(&self) -> bool {
        !self.empty
    }

    /// The sticky error flag: true once any write was refused.
    pub closed spec fn failed(&self) -> bool {
        self.error
    }

    /// True when `n` more characters still fit in the sink.
    pub open spec fn room(&self, n: nat) -> bool {
        match self.cap() {
            None => true,
            Some(l) => self.written().len() + n <= l,
        }
    }

    /// The renderer's invariant: unless a write was refused, the sink
    /// holds exactly what it started with plus the rendering of the
    /// events consumed so far; the pending separator and the
    /// emptiness flag always track the stream.
    pub open spec fn wf(&self) -> bool {
        &&& (!self.failed() ==> self.written() == self.sink0() + stream_output(
            self.events(),
            self.prefix0(),
        ))
        &&& self.pending() == stream_pending(self.events(), self.prefix0())
        &&& self.emitted() == stream_nonempty(self.events())
    }

    /// A fresh renderer around `sink`, seeded with the caller's
    /// `prefix` as the separator to write before the first item.
    pub fn new(sink: Sink, prefix: &str) -> (v: Visitor)
        ensures
            v.wf(),
            v.events() == Seq::<EventV>::empty(),
            v.prefix0() == prefix@,
            v.sink0() == sink.contents(),
            v.cap() == sink.limit(),
            !v.failed(),
    {
        let v = Visitor {
            base: Ghost(sink.contents()),
            sink,
            prefix: prefix.to_owned(),
            empty: true,
            error: false,
            trace: Ghost(Seq::empty()),
            first: Ghost(prefix@),
        };
        v
    }

    /// Attempts one write; a refusal sets the sticky error flag.
    fn put(&mut self, s: &str)
        ensures
            final(self).events() == old(self).events(),
            final(self).prefix0() == old(self).prefix0(),
            final(self).sink0() == old(self).sink0(),
            final(self).cap() == old(self).cap(),
            final(self).pending() == old(self).pending(),
            final(self).emitted() == old(self).emitted(),
            old(self).room(s@.len()) ==> final(self).written() == old(self).written() + s@
                && final(self).failed() == old(self).failed(),
            !old(self).room(s@.len()) ==> final(self).written() == old(self).written()
                && final(self).failed(),
    {
        let ok = self.sink.write_str(s);
        if !ok {
            self.error = true;
        }
    }

    /// Writes the pending separator and, when a key is given, the
    /// quoted key and a colon; from here on the renderer counts as
    /// non-empty and the pending separator is a comma.
    pub fn push_key(&mut self, key: Option<&str>)
        ensures
            final(self).events() == old(self).events(),
            final(self).prefix0() == old(self).prefix0(),
            final(self).sink0() == old(self).sink0(),
            final(self).cap() == old(self).cap(),
            final(self).pending() == seq![','],
            final(self).emitted(),
            old(self).failed() ==> final(self).failed(),
            !old(self).failed() && old(self).cap() is None ==> !final(self).failed(),
            !final(self).failed() ==> final(self).written() == old(self).written() + old(
                self,
            ).pending() + keypart(key_view(key)),
    {
        let sep_text = self.prefix.clone();
        let comma = ",";
        proof {
            reveal_strlit(",");
            assert(comma@ =~= seq![',']);
        }
        self.prefix = comma.to_owned();
        self.empty = false;
        self.put(sep_text.as_str());
        match key {
            Some(k) => {
                let mut chunk = String::new();
                push_str_literal(&mut chunk, k);
                push_char(&mut chunk, ':');
                self.put(chunk.as_str());
                proof {
                    if !self.failed() {
                        assert(self.written() =~= old(self).written() + old(self).pending()
                            + keypart(key_view(key)));
                    }
                }
            },
            None => {
                proof {
                    if !self.failed() {
                        assert(self.written() =~= old(self).written() + old(self).pending()
                            + keypart(key_view(key)));
                    }
                }
            },
        }
    }

    /// An unsigned scalar: the quoted key, a colon, the decimal text.
    pub fn kv_u64(&mut self, key: Option<&str>, val: u64)
        requires
            old(self).wf(),
        ensures
            final(self).wf(),
            final(self).events() == old(self).events().push(
                EventV::U64 { key: key_view(key), val },
            ),
            final(self).prefix0() == old(self).prefix0(),
            final(self).sink0() == old(self).sink0(),
            final(self).cap() == old(self).cap(),
            old(self).failed() ==> final(self).failed(),
            !old(self).failed() && old(self).cap() is None ==> !final(self).failed(),
    {
        self.push_key(key);
        let text = u64_text(val);
        self.put(text.as_str());
        proof {
            self.trace@ = self.trace@.push(EventV::U64 { key: key_view(key), val });
        }
        proof {
            let e = EventV::U64 { key: key_view(key), val };
            lemma_stream_push(old(self).events(), old(self).prefix0(), e);
            if !self.failed() {
                assert(self.written() =~= self.sink0() + stream_output(
                    self.events(),
                    self.prefix0(),
                ));
            }
        }
    }

    /// A signed scalar: the quoted key, a colon, the decimal text.
    pub fn kv_i64(&mut self, key: Option<&str>, val: i64)
        requires
            old(self).wf(),
        ensures
            final(self).wf(),
            final(self).events() == old(self).events().push(
                EventV::I64 { key: key_view(key), val },
            ),
            final(self).prefix0() == old(self).prefix0(),
            final(self).sink0() == old(self).sink0(),
            final(self).cap() == old(self).cap(),
            old(self).failed() ==> final(self).failed(),
            !old(self).failed() && old(self).cap() is None ==> !final(self).failed(),
    {
        self.push_key(key);
        let text = i64_text(val);
        self.put(text.as_str());
        proof {
            self.trace@ = self.trace@.push(EventV::I64 { key: key_view(key), val });
        }
        proof {
            let e = EventV::I64 { key: key_view(key), val };
            lemma_stream_push(old(self).events(), old(self).prefix0(), e);
            if !self.failed() {
                assert(self.written() =~= self.sink0() + stream_output(
                    self.events(),
                    self.prefix0(),
                ));
            }
        }
    }

    /// A floating-point scalar, handed over as its already-formatted
    /// decimal text: floats themselves stay outside the verified core.
    pub fn kv_f64_text(&mut self, key: Option<&str>, val: &str)
        requires
            old(self).wf(),
        ensures
            final(self).wf(),
            final(self).events() == old(self).events().push(
                EventV::F64 { key: key_view(key), text: val@ },
            ),
            final(self).prefix0() == old(self).prefix0(),
            final(self).sink0() == old(self).sink0(),
            final(self).cap() == old(self).cap(),
            old(self).failed() ==> final(self).failed(),
            !old(self).failed() && old(self).cap() is None ==> !final(self).failed(),
    {
        self.push_key(key);
        self.put(val);
        proof {
            self.trace@ = self.trace@.push(EventV::F64 { key: key_view(key), text: val@ });
        }
        proof {
            let e = EventV::F64 { key: key_view(key), text: val@ };
            lemma_stream_push(old(self).events(), old(self).prefix0(), e);
            if !self.failed() {
                assert(self.written() =~= self.sink0() + stream_output(
                    self.events(),
                    self.prefix0(),
                ));
            }
        }
    }

    /// A boolean scalar: the quoted key, a colon, `true` or `false`.
    pub fn kv_bool(&mut self, key: Option<&str>, val: bool)
        requires
            old(self).wf(),
        ensures
            final(self).wf(),
            final(self).events() == old(self).events().push(
                EventV::Bool { key: key_view(key), val },
            ),
            final(self).prefix0() == old(self).prefix0(),
            final(self).sink0() == old(self).sink0(),
            final(self).cap() == old(self).cap(),
            old(self).failed() ==> final(self).failed(),
            !old(self).failed() && old(self).cap() is None ==> !final(self).failed(),
    {
        self.push_key(key);
        let text = bool_str(val);
        self.put(text);
        proof {
            self.trace@ = self.trace@.push(EventV::Bool { key: key_view(key), val });
        }
        proof {
            let e = EventV::Bool { key: key_view(key), val };
            lemma_stream_push(old(self).events(), old(self).prefix0(), e);
            if !self.failed() {
                assert(self.written() =~= self.sink0() + stream_output(
                    self.events(),
                    self.prefix0(),
                ));
            }
        }
    }

    /// A null scalar: the quoted key, a colon, the literal `null`.
    pub fn kv_null(&mut self, key: Option<&str>)
        requires
            old(self).wf(),
        ensures
            final(self).wf(),
            final(self).events() == old(self).events().push(EventV::Null { key: key_view(key) }),
            final(self).prefix0() == old(self).prefix0(),
            final(self).sink0() == old(self).sink0(),
            final(self).cap() == old(self).cap(),
            old(self).failed() ==> final(self).failed(),
            !old(self).failed() && old(self).cap() is None ==> !final(self).failed(),
    {
        self.push_key(key);
        let text = "null";
        proof {
            reveal_strlit("null");
            assert(text@ =~= seq!['n', 'u', 'l', 'l']);
        }
        self.put(text);
        proof {
            self.trace@ = self.trace@.push(EventV::Null { key: key_view(key) });
        }
        proof {
            let e = EventV::Null { key: key_view(key) };
            lemma_stream_push(old(self).events(), old(self).prefix0(), e);
            if !self.failed() {
                assert(self.written() =~= self.sink0() + stream_output(
                    self.events(),
                    self.prefix0(),
                ));
            }
        }
    }

    /// A string scalar: the quoted key, a colon, the quoted value.
    pub fn kv_str(&mut self, key: Option<&str>, val: &str)
        requires
            old(self).wf(),
        ensures
            final(self).wf(),
            final(self).events() == old(self).events().push(
                EventV::Str { key: key_view(key), val: val@ },
            ),
            final(self).prefix0() == old(self).prefix0(),
            final(self).sink0() == old(self).sink0(),
            final(self).cap() == old(self).cap(),
            old(self).failed() ==> final(self).failed(),
            !old(self).failed() && old(self).cap() is None ==> !final(self).failed(),
    {
        self.push_key(key);
        let mut chunk = String::new();
        push_str_literal(&mut chunk, val);
        self.put(chunk.as_str());
        proof {
            self.trace@ = self.trace@.push(EventV::Str { key: key_view(key), val: val@ });
        }
        proof {
            let e = EventV::Str { key: key_view(key), val: val@ };
            lemma_stream_push(old(self).events(), old(self).prefix0(), e);
            if !self.failed() {
                assert(self.written() =~= self.sink0() + stream_output(
                    self.events(),
                    self.prefix0(),
                ));
            }
        }
    }

    /// A lazily-formatted scalar, handed over as its computed text;
    /// it is quoted exactly like a string value.
    pub fn kv_fmt(&mut self, key: Option<&str>, val: &str)
        requires
            old(self).wf(),
        ensures
            final(self).wf(),
            final(self).events() == old(self).events().push(
                EventV::Fmt { key: key_view(key), text: val@ },
            ),
            final(self).prefix0() == old(self).prefix0(),
            final(self).sink0() == old(self).sink0(),
            final(self).cap() == old(self).cap(),
            old(self).failed() ==> final(self).failed(),
            !old(self).failed() && old(self).cap() is None ==> !final(self).failed(),
    {
        self.push_key(key);
        let mut chunk = String::new();
        push_str_literal(&mut chunk, val);
        self.put(chunk.as_str());
        proof {
            self.trace@ = self.trace@.push(EventV::Fmt { key: key_view(key), text: val@ });
        }
        proof {
            let e = EventV::Fmt { key: key_view(key), text: val@ };
            lemma_stream_push(old(self).events(), old(self).prefix0(), e);
            if !self.failed() {
                assert(self.written() =~= self.sink0() + stream_output(
                    self.events(),
                    self.prefix0(),
                ));
            }
        }
    }

    /// Opens a map: the quoted key, a colon, `{`, and an empty
    /// pending separator so the first child gets no comma.
    pub fn kv_map(&mut self, key: Option<&str>)
        requires
            old(self).wf(),
        ensures
            final(self).wf(),
            final(self).events() == old(self).events().push(
                EventV::MapOpen { key: key_view(key) },
            ),
            final(self).prefix0() == old(self).prefix0(),
            final(self).sink0() == old(self).sink0(),
            final(self).cap() == old(self).cap(),
            old(self).failed() ==> final(self).failed(),
            !old(self).failed() && old(self).cap() is None ==> !final(self).failed(),
    {
        self.push_key(key);
        let brace = "{";
        proof {
            reveal_strlit("{");
            assert(brace@ =~= seq!['{']);
        }
        self.put(brace);
        self.prefix = String::new();
        proof {
            self.trace@ = self.trace@.push(EventV::MapOpen { key: key_view(key) });
        }
        proof {
            let e = EventV::MapOpen { key: key_view(key) };
            lemma_stream_push(old(self).events(), old(self).prefix0(), e);
            if !self.failed() {
                assert(self.written() =~= self.sink0() + stream_output(
                    self.events(),
                    self.prefix0(),
                ));
            }
        }
    }

    /// Closes a map: `}` alone, and the parent level's comma
    /// separator is restored.
    pub fn kv_mapend(&mut self, key: Option<&str>)
        requires
            old(self).wf(),
        ensures
            final(self).wf(),
            final(self).events() == old(self).events().push(
                EventV::MapClose { key: key_view(key) },
            ),
            final(self).prefix0() == old(self).prefix0(),
            final(self).sink0() == old(self).sink0(),
            final(self).cap() == old(self).cap(),
            old(self).failed() ==> final(self).failed(),
            !old(self).failed() && old(self).cap() is None ==> !final(self).failed(),
    {
        let brace = "}";
        proof {
            reveal_strlit("}");
            assert(brace@ =~= seq!['}']);
        }
        self.put(brace);
        let comma = ",";
        proof {
            reveal_strlit(",");
            assert(comma@ =~= seq![',']);
        }
        self.prefix = comma.to_owned();
        proof {
            self.trace@ = self.trace@.push(EventV::MapClose { key: key_view(key) });
        }
        proof {
            let e = EventV::MapClose { key: key_view(key) };
            lemma_stream_push(old(self).events(), old(self).prefix0(), e);
            if !self.failed() {
                assert(self.written() =~= self.sink0() + stream_output(
                    self.events(),
                    self.prefix0(),
                ));
            }
        }
    }

    /// Opens an array: the quoted key, a colon, `[`, and an empty
    /// pending separator.
    pub fn kv_arr(&mut self, key: Option<&str>)
        requires
            old(self).wf(),
        ensures
            final(self).wf(),
            final(self).events() == old(self).events().push(
                EventV::ArrOpen { key: key_view(key) },
            ),
            final(self).prefix0() == old(self).prefix0(),
            final(self).sink0() == old(self).sink0(),
            final(self).cap() == old(self).cap(),
            old(self).failed() ==> final(self).failed(),
            !old(self).failed() && old(self).cap() is None ==> !final(self).failed(),
    {
        self.push_key(key);
        let bracket = "[";
        proof {
            reveal_strlit("[");
            assert(bracket@ =~= seq!['[']);
        }
        self.put(bracket);
        self.prefix = String::new();
        proof {
            self.trace@ = self.trace@.push(EventV::ArrOpen { key: key_view(key) });
        }
        proof {
            let e = EventV::ArrOpen { key: key_view(key) };
            lemma_stream_push(old(self).events(), old(self).prefix0(), e);
            if !self.failed() {
                assert(self.written() =~= self.sink0() + stream_output(
                    self.events(),
                    self.prefix0(),
                ));
            }
        }
    }

    /// Closes an array: `]` alone, and the parent level's comma
    /// separator is restored.
    pub fn kv_arrend(&mut self, key: Option<&str>)
        requires
            old(self).wf(),
        ensures
            final(self).wf(),
            final(self).events() == old(self).events().push(
                EventV::ArrClose { key: key_view(key) },
            ),
            final(self).prefix0() == old(self).prefix0(),
            final(self).sink0() == old(self).sink0(),
            final(self).cap() == old(self).cap(),
            old(self).failed() ==> final(self).failed(),
            !old(self).failed() && old(self).cap() is None ==> !final(self).failed(),
    {
        let bracket = "]";
        proof {
            reveal_strlit("]");
            assert(bracket@ =~= seq![']']);
        }
        self.put(bracket);
        let comma = ",";
        proof {
            reveal_strlit(",");
            assert(comma@ =~= seq![',']);
        }
        self.prefix = comma.to_owned();
        proof {
            self.trace@ = self.trace@.push(EventV::ArrClose { key: key_view(key) });
        }
        proof {
            let e = EventV::ArrClose { key: key_view(key) };
            lemma_stream_push(old(self).events(), old(self).prefix0(), e);
            if !self.failed() {
                assert(self.written() =~= self.sink0() + stream_output(
                    self.events(),
                    self.prefix0(),
                ));
            }
        }
    }

    /// Finalizes the render: a sticky error reports failure; an empty
    /// render adds nothing; otherwise the suffix is written.  On
    /// success the sink holds its starting contents plus exactly the
    /// stream's rendering.
    pub fn finish(self, suffix: &str) -> (r: Option<Sink>)
        ensures
            (r is Some) == (!self.failed() && (!self.emitted() || self.room(suffix@.len()))),
            r matches Some(s) ==> s.limit() == self.cap() && s.contents() == self.written() + (
            if self.emitted() {
                suffix@
            } else {
                Seq::<char>::empty()
            }),
            r matches Some(s) ==> (self.wf() ==> s.contents() == self.sink0() + rendered(
                self.events(),
                self.prefix0(),
                suffix@,
            )),
    {
        let mut this = self;
        if this.error {
            None
        } else if this.empty {
            proof {
                assert(this.sink.contents() =~= self.written() + Seq::<char>::empty());
                if self.wf() {
                    assert(this.sink.contents() =~= self.sink0() + rendered(
                        self.events(),
                        self.prefix0(),
                        suffix@,
                    ));
                }
            }
            Some(this.sink)
        } else {
            let ok = this.sink.write_str(suffix);
            if ok {
                proof {
                    if self.wf() {
                        assert(this.sink.contents() =~= self.sink0() + rendered(
                            self.events(),
                            self.prefix0(),
                            suffix@,
                        ));
                    }
                }
                Some(this.sink)
            } else {
                None
            }
        }
    }
}

// ---------------------------------------------------------------------------
// Laws of the JSON encoding.
// ---------------------------------------------------------------------------

/// Law: the rendered text is a function of the event stream and the
/// renderer's initial state alone, so running the same events twice
/// through fresh renderers yields byte-identical output.
pub proof fn lemma_render_deterministic(a: &Visitor, b: &Visitor)
    requires
        a.wf(),
        b.wf(),
        !a.failed(),
        !b.failed(),
        a.events() == b.events(),
        a.prefix0() == b.prefix0(),
        a.sink0() == b.sink0(),
    ensures
        a.written() == b.written(),
{
}

/// Law: a stream with no events renders as nothing at all — neither
/// the caller's prefix nor the suffix appears.
pub proof fn lemma_empty_stream(p0: Seq<char>, suffix: Seq<char>)
    ensures
        rendered(Seq::empty(), p0, suffix) == Seq::<char>::empty(),
{
    assert(rendered(Seq::<EventV>::empty(), p0, suffix) =~= Seq::<char>::empty());
}

/// An event that renders one leaf item, neither opening nor closing
/// a container.
pub open spec fn is_scalar_event(e: EventV) -> bool {
    !(e is MapOpen || e is ArrOpen || e is MapClose || e is ArrClose)
}

/// Sibling items joined: the first behind `p0`, every later one
/// behind exactly one comma.
pub open spec fn items_joined(events: Seq<EventV>, p0: Seq<char>) -> Seq<char>
    decreases events.len(),
{
    if events.len() == 0 {
        Seq::empty()
    } else if events.len() == 1 {
        p0 + event_text(events.last(), Seq::empty())
    } else {
        items_joined(events.drop_last(), p0) + seq![','] + event_text(events.last(), Seq::empty())
    }
}

/// Any non-close event renders as the pending separator followed by
/// its own separator-free text.
proof fn lemma_event_text_pending(e: EventV, p: Seq<char>)
    requires
        !e.is_close(),
    ensures
        event_text(e, p) == p + event_text(e, Seq::empty()),
{
    match e {
        EventV::U64 { .. } => {
            assert(event_text(e, p) =~= p + event_text(e, Seq::empty()));
        },
        EventV::I64 { .. } => {
            assert(event_text(e, p) =~= p + event_text(e, Seq::empty()));
        },
        EventV::F64 { .. } => {
            assert(event_text(e, p) =~= p + event_text(e, Seq::empty()));
        },
        EventV::Bool { .. } => {
            assert(event_text(e, p) =~= p + event_text(e, Seq::empty()));
        },
        EventV::Null { .. } => {
            assert(event_text(e, p) =~= p + event_text(e, Seq::empty()));
        },
        EventV::Str { .. } => {
            assert(event_text(e, p) =~= p + event_text(e, Seq::empty()));
        },
        EventV::Fmt { .. } => {
            assert(event_text(e, p) =~= p + event_text(e, Seq::empty()));
        },
        EventV::MapOpen { .. } => {
            assert(event_text(e, p) =~= p + event_text(e, Seq::empty()));
        },
        EventV::ArrOpen { .. } => {
            assert(event_text(e, p) =~= p + event_text(e, Seq::empty()));
        },
        _ => {},
    }
}

/// Law: N sibling scalar items at one nesting level carry exactly
/// N - 1 single-comma separators: one before every item but the
/// first, none before the first and none after the last.
pub proof fn lemma_separator_correct(events: Seq<EventV>, p0: Seq<char>)
    requires
        forall|i: int| 0 <= i < events.len() ==> is_scalar_event(#[trigger] events[i]),
    ensures
        stream_output(events, p0) == items_joined(events, p0),
    decreases events.len(),
{
    if events.len() == 0 {
    } else {
        let rest = events.drop_last();
        let e = events.last();
        assert(forall|i: int| 0 <= i < rest.len() ==> is_scalar_event(#[trigger] rest[i])) by {
            assert(forall|i: int|
                0 <= i < rest.len() ==> rest[i] == #[trigger] events[i] && is_scalar_event(
                    events[i],
                ));
        }
        lemma_separator_correct(rest, p0);
        lemma_event_text_pending(e, stream_pending(rest, p0));
        if rest.len() == 0 {
            assert(stream_output(events, p0) =~= items_joined(events, p0));
        } else {
            assert(is_scalar_event(events[events.len() - 2]));
            assert(rest.last() == events[events.len() - 2]);
            assert(stream_pending(rest, p0) == seq![',']);
            assert(stream_output(events, p0) =~= items_joined(events, p0));
        }
    }
}

/// Splitting a stream anywhere: the second part renders from the
/// pending separator the first part leaves behind.
pub proof fn lemma_stream_concat(a: Seq<EventV>, b: Seq<EventV>, p0: Seq<char>)
    ensures
        stream_output(a + b, p0) == stream_output(a, p0) + stream_output(
            b,
            stream_pending(a, p0),
        ),
        stream_pending(a + b, p0) == stream_pending(b, stream_pending(a, p0)),
    decreases b.len(),
{
    if b.len() == 0 {
        assert(a + b =~= a);
        assert(stream_output(a + b, p0) =~= stream_output(a, p0) + stream_output(
            b,
            stream_pending(a, p0),
        ));
    } else {
        lemma_stream_concat(a, b.drop_last(), p0);
        assert((a + b).drop_last() =~= a + b.drop_last());
        assert((a + b).last() == b.last());
        assert(stream_output(a + b, p0) =~= stream_output(a, p0) + stream_output(
            b,
            stream_pending(a, p0),
        ));
    }
}

/// Law: wherever a container stands, it renders as its key and
/// brackets around exactly what its children render with an empty
/// initial separator.
pub proof fn lemma_container_render(
    events: Seq<EventV>,
    inner: Seq<EventV>,
    p0: Seq<char>,
    key: Option<Seq<char>>,
)
    ensures
        stream_output(
            events + seq![EventV::MapOpen { key }] + inner + seq![EventV::MapClose { key }],
            p0,
        ) == stream_output(events, p0) + stream_pending(events, p0) + keypart(key) + seq!['{']
            + stream_output(inner, Seq::empty()) + seq!['}'],
        stream_output(
            events + seq![EventV::ArrOpen { key }] + inner + seq![EventV::ArrClose { key }],
            p0,
        ) == stream_output(events, p0) + stream_pending(events, p0) + keypart(key) + seq!['[']
            + stream_output(inner, Seq::empty()) + seq![']'],
{
    let mopen = seq![EventV::MapOpen { key }];
    let mclose = seq![EventV::MapClose { key }];
    lemma_stream_concat(events, mopen, p0);
    lemma_stream_push(Seq::empty(), stream_pending(events, p0), EventV::MapOpen { key });
    assert(Seq::<EventV>::empty().push(EventV::MapOpen { key }) =~= mopen);
    lemma_stream_concat(events + mopen, inner, p0);
    lemma_stream_concat(events + mopen + inner, mclose, p0);
    lemma_stream_push(
        Seq::empty(),
        stream_pending(events + mopen + inner, p0),
        EventV::MapClose { key },
    );
    assert(Seq::<EventV>::empty().push(EventV::MapClose { key }) =~= mclose);
    assert(stream_output(
        events + seq![EventV::MapOpen { key }] + inner + seq![EventV::MapClose { key }],
        p0,
    ) =~= stream_output(events, p0) + stream_pending(events, p0) + keypart(key) + seq!['{']
        + stream_output(inner, Seq::empty()) + seq!['}']);

    let aopen = seq![EventV::ArrOpen { key }];
    let aclose = seq![EventV::ArrClose { key }];
    lemma_stream_concat(events, aopen, p0);
    lemma_stream_push(Seq::empty(), stream_pending(events, p0), EventV::ArrOpen { key });
    assert(Seq::<EventV>::empty().push(EventV::ArrOpen { key }) =~= aopen);
    lemma_stream_concat(events + aopen, inner, p0);
    lemma_stream_concat(events + aopen + inner, aclose, p0);
    lemma_stream_push(
        Seq::empty(),
        stream_pending(events + aopen + inner, p0),
        EventV::ArrClose { key },
    );
    assert(Seq::<EventV>::empty().push(EventV::ArrClose { key }) =~= aclose);
    assert(stream_output(
        events + seq![EventV::ArrOpen { key }] + inner + seq![EventV::ArrClose { key }],
        p0,
    ) =~= stream_output(events, p0) + stream_pending(events, p0) + keypart(key) + seq!['[']
        + stream_output(inner, Seq::empty()) + seq![']']);
}

/// Law: an open bracket followed immediately by its matching close
/// renders the empty-container form, `"key":{}` or `"key":[]`.
pub proof fn lemma_empty_container(events: Seq<EventV>, p0: Seq<char>, key: Option<Seq<char>>)
    ensures
        stream_output(events.push(EventV::MapOpen { key }).push(EventV::MapClose { key }), p0)
            == stream_output(events, p0) + stream_pending(events, p0) + keypart(key)
            + seq!['{', '}'],
        stream_output(events.push(EventV::ArrOpen { key }).push(EventV::ArrClose { key }), p0)
            == stream_output(events, p0) + stream_pending(events, p0) + keypart(key)
            + seq!['[', ']'],
{
    lemma_stream_push(events, p0, EventV::MapOpen { key });
    lemma_stream_push(events.push(EventV::MapOpen { key }), p0, EventV::MapClose { key });
    assert(stream_output(events.push(EventV::MapOpen { key }).push(EventV::MapClose { key }), p0)
        =~= stream_output(events, p0) + stream_pending(events, p0) + keypart(key)
        + seq!['{', '}']);
    lemma_stream_push(events, p0, EventV::ArrOpen { key });
    lemma_stream_push(events.push(EventV::ArrOpen { key }), p0, EventV::ArrClose { key });
    assert(stream_output(events.push(EventV::ArrOpen { key }).push(EventV::ArrClose { key }), p0)
        =~= stream_output(events, p0) + stream_pending(events, p0) + keypart(key)
        + seq!['[', ']']);
}

/// Decodes the body of a JSON string literal: `\"` and `\\` back to
/// the bare character, `\u00XX` back to the character with code XX,
/// anything else as itself.
pub open spec fn json_unesc_chars(t: Seq<char>) -> Option<Seq<char>>
    decreases t.len(),
{
    if t.len() == 0 {
        Some(Seq::empty())
    } else if t[0] == '\\' {
        if 2 <= t.len() && (t[1] == '"' || t[1] == '\\') {
            match json_unesc_chars(t.skip(2)) {
                Some(rest) => Some(seq![t[1]] + rest),
                None => None,
            }
        } else if 6 <= t.len() && t[1] == 'u' && t[2] == '0' && t[3] == '0' && unhex(t[4]) < 16
            && unhex(t[5]) < 16 {
            match json_unesc_chars(t.skip(6)) {
                Some(rest) => Some(seq![((unhex(t[4]) * 16 + unhex(t[5])) as u8) as char] + rest),
                None => None,
            }
        } else {
            None
        }
    } else {
        match json_unesc_chars(t.skip(1)) {
            Some(rest) => Some(seq![t[0]] + rest),
            None => None,
        }
    }
}

/// Decoding distributes over appending one escaped character.
proof fn lemma_json_unesc_append(a: Seq<char>, x: Seq<char>, c: char)
    requires
        json_unesc_chars(a) == Some(x),
    ensures
        json_unesc_chars(a + json_esc_char(c)) == Some(x.push(c)),
    decreases a.len(),
{
    let s = json_esc_char(c);
    let t = a + s;
    if a.len() == 0 {
        assert(t =~= s);
        assert(x =~= Seq::<char>::empty());
        assert(json_unesc_chars(Seq::<char>::empty()) == Some(Seq::<char>::empty()));
        if c == '"' || c == '\\' {
            assert(t[0] == '\\' && t.len() == 2 && t[1] == c);
            assert(t.skip(2) =~= Seq::<char>::empty());
            assert(json_unesc_chars(t) == Some(seq![c] + Seq::<char>::empty()));
            assert(seq![c] + Seq::<char>::empty() =~= x.push(c));
        } else if (c as u32) < 0x20 {
            let hi = (c as u32) as int / 16;
            let lo = (c as u32) as int % 16;
            lemma_unhex_hex_digit(hi);
            lemma_unhex_hex_digit(lo);
            assert(t[0] == '\\' && t.len() == 6 && t[1] == 'u' && t[2] == '0' && t[3] == '0');
            assert(unhex(t[4]) == hi && unhex(t[5]) == lo);
            assert(t.skip(6) =~= Seq::<char>::empty());
            assert(hi * 16 + lo == (c as u32) as int);
            assert((((hi * 16 + lo) as u8) as char) == c);
            assert(json_unesc_chars(t) == Some(seq![c] + Seq::<char>::empty()));
            assert(seq![c] + Seq::<char>::empty() =~= x.push(c));
        } else {
            assert(c != '\\');
            assert(t =~= seq![c]);
            assert(t.skip(1) =~= Seq::<char>::empty());
            assert(json_unesc_chars(t) == Some(seq![t[0]] + Seq::<char>::empty()));
            assert(seq![t[0]] + Seq::<char>::empty() =~= x.push(c));
        }
    } else {
        if a[0] == '\\' {
            if 2 <= a.len() && (a[1] == '"' || a[1] == '\\') {
                match json_unesc_chars(a.skip(2)) {
                    Some(rest) => {
                        assert(x == seq![a[1]] + rest);
                        lemma_json_unesc_append(a.skip(2), rest, c);
                        assert(t[0] == '\\' && 2 <= t.len() && t[1] == a[1]);
                        assert(t.skip(2) =~= a.skip(2) + s);
                        assert(json_unesc_chars(t) == Some(seq![a[1]] + rest.push(c)));
                        assert(seq![a[1]] + rest.push(c) =~= x.push(c));
                    },
                    None => {
                        assert(false);
                    },
                }
            } else {
                assert(6 <= a.len() && a[1] == 'u' && a[2] == '0' && a[3] == '0' && unhex(a[4])
                    < 16 && unhex(a[5]) < 16);
                match json_unesc_chars(a.skip(6)) {
                    Some(rest) => {
                        let d = ((unhex(a[4]) * 16 + unhex(a[5])) as u8) as char;
                        assert(x == seq![d] + rest);
                        lemma_json_unesc_append(a.skip(6), rest, c);
                        assert(t[0] == '\\' && 6 <= t.len());
                        assert(t[1] == a[1] && t[2] == a[2] && t[3] == a[3] && t[4] == a[4] && t[5]
                            == a[5]);
                        assert(t.skip(6) =~= a.skip(6) + s);
                        assert(json_unesc_chars(t) == Some(seq![d] + rest.push(c)));
                        assert(seq![d] + rest.push(c) =~= x.push(c));
                    },
                    None => {
                        assert(false);
                    },
                }
            }
        } else {
            match json_unesc_chars(a.skip(1)) {
                Some(rest) => {
                    assert(x == seq![a[0]] + rest);
                    lemma_json_unesc_append(a.skip(1), rest, c);
                    assert(t[0] == a[0]);
                    assert(t.skip(1) =~= a.skip(1) + s);
                    assert(json_unesc_chars(t) == Some(seq![a[0]] + rest.push(c)));
                    assert(seq![a[0]] + rest.push(c) =~= x.push(c));
                },
                None => {
                    assert(false);
                },
            }
        }
    }
}

/// Law (escaping round-trip): decoding the body of a rendered JSON
/// string literal recovers the original string exactly, so a
/// standards-compliant parser reads back the value that was emitted.
pub proof fn lemma_json_escaping_roundtrip(s: Seq<char>)
    ensures
        json_quoted(s) == seq!['"'] + json_esc_chars(s) + seq!['"'],
        json_unesc_chars(json_esc_chars(s)) == Some(s),
    decreases s.len(),
{
    if s.len() == 0 {
        assert(json_esc_chars(s) =~= Seq::<char>::empty());
        assert(json_unesc_chars(json_esc_chars(s)) == Some(Seq::<char>::empty()));
        assert(Seq::<char>::empty() =~= s);
    } else {
        lemma_json_escaping_roundtrip(s.drop_last());
        lemma_json_unesc_append(json_esc_chars(s.drop_last()), s.drop_last(), s.last());
        assert(s.drop_last().push(s.last()) =~= s);
    }
}

} // verus!
