use crate::event::{key_view, EventV};
use crate::numtext::{dec_digits, int_text, push_char, u128_text, i128_text};
use vstd::prelude::*;

verus! {

/// The visitor protocol: the fixed set of callbacks a traversal
/// driver issues against a renderer.
///
/// Both renderers implement it.  The contracts say that each call
/// appends exactly its event to the stream the renderer has consumed,
/// keeps the renderer's invariant, and leaves the creation-time state
/// (initial separator, initial sink contents, capacity) unchanged;
/// what the stream renders as is each renderer's own affair.
pub trait LogVisitor {
    /// The events consumed so far.
    spec fn stream(&self) -> Seq<EventV>;

    /// The renderer's invariant.
    spec fn inv(&self) -> bool;

    /// The pending separator the renderer was created with.
    spec fn prefix0(&self) -> Seq<char>;

    /// What the sink already held when the renderer was created.
    spec fn sink0(&self) -> Seq<char>;

    /// The sink's capacity limit, if any.
    spec fn cap(&self) -> Option<usize>;

    fn kv_u64(&mut self, key: Option<&str>, val: u64)
        requires
            old(self).inv(),
        ensures
            final(self).inv(),
            final(self).stream() == old(self).stream().push(
                EventV::U64 { key: key_view(key), val },
            ),
            final(self).prefix0() == old(self).prefix0(),
            final(self).sink0() == old(self).sink0(),
            final(self).cap() == old(self).cap(),
    ;

    fn kv_i64(&mut self, key: Option<&str>, val: i64)
        requires
            old(self).inv(),
        ensures
            final(self).inv(),
            final(self).stream() == old(self).stream().push(
                EventV::I64 { key: key_view(key), val },
            ),
            final(self).prefix0() == old(self).prefix0(),
            final(self).sink0() == old(self).sink0(),
            final(self).cap() == old(self).cap(),
    ;

    fn kv_f64_text(&mut self, key: Option<&str>, val: &str)
        requires
            old(self).inv(),
        ensures
            final(self).inv(),
            final(self).stream() == old(self).stream().push(
                EventV::F64 { key: key_view(key), text: val@ },
            ),
            final(self).prefix0() == old(self).prefix0(),
            final(self).sink0() == old(self).sink0(),
            final(self).cap() == old(self).cap(),
    ;

    fn kv_bool(&mut self, key: Option<&str>, val: bool)
        requires
            old(self).inv(),
        ensures
            final(self).inv(),
            final(self).stream() == old(self).stream().push(
                EventV::Bool { key: key_view(key), val },
            ),
            final(self).prefix0() == old(self).prefix0(),
            final(self).sink0() == old(self).sink0(),
            final(self).cap() == old(self).cap(),
    ;

    fn kv_null(&mut self, key: Option<&str>)
        requires
            old(self).inv(),
        ensures
            final(self).inv(),
            final(self).stream() == old(self).stream().push(EventV::Null { key: key_view(key) }),
            final(self).prefix0() == old(self).prefix0(),
            final(self).sink0() == old(self).sink0(),
            final(self).cap() == old(self).cap(),
    ;

    fn kv_str(&mut self, key: Option<&str>, val: &str)
        requires
            old(self).inv(),
        ensures
            final(self).inv(),
            final(self).stream() == old(self).stream().push(
                EventV::Str { key: key_view(key), val: val@ },
            ),
            final(self).prefix0() == old(self).prefix0(),
            final(self).sink0() == old(self).sink0(),
            final(self).cap() == old(self).cap(),
    ;

    fn kv_fmt(&mut self, key: Option<&str>, val: &str)
        requires
            old(self).inv(),
        ensures
            final(self).inv(),
            final(self).stream() == old(self).stream().push(
                EventV::Fmt { key: key_view(key), text: val@ },
            ),
            final(self).prefix0() == old(self).prefix0(),
            final(self).sink0() == old(self).sink0(),
            final(self).cap() == old(self).cap(),
    ;

    fn kv_map(&mut self, key: Option<&str>)
        requires
            old(self).inv(),
        ensures
            final(self).inv(),
            final(self).stream() == old(self).stream().push(
                EventV::MapOpen { key: key_view(key) },
            ),
            final(self).prefix0() == old(self).prefix0(),
            final(self).sink0() == old(self).sink0(),
            final(self).cap() == old(self).cap(),
    ;

    fn kv_mapend(&mut self, key: Option<&str>)
        requires
            old(self).inv(),
        ensures
            final(self).inv(),
            final(self).stream() == old(self).stream().push(
                EventV::MapClose { key: key_view(key) },
            ),
            final(self).prefix0() == old(self).prefix0(),
            final(self).sink0() == old(self).sink0(),
            final(self).cap() == old(self).cap(),
    ;

    fn kv_arr(&mut self, key: Option<&str>)
        requires
            old(self).inv(),
        ensures
            final(self).inv(),
            final(self).stream() == old(self).stream().push(
                EventV::ArrOpen { key: key_view(key) },
            ),
            final(self).prefix0() == old(self).prefix0(),
            final(self).sink0() == old(self).sink0(),
            final(self).cap() == old(self).cap(),
    ;

    fn kv_arrend(&mut self, key: Option<&str>)
        requires
            old(self).inv(),
        ensures
            final(self).inv(),
            final(self).stream() == old(self).stream().push(
                EventV::ArrClose { key: key_view(key) },
            ),
            final(self).prefix0() == old(self).prefix0(),
            final(self).sink0() == old(self).sink0(),
            final(self).cap() == old(self).cap(),
    ;
}

impl LogVisitor for crate::kvdisp::Visitor {
    open spec fn stream(&self) -> Seq<EventV> {
        crate::kvdisp::Visitor::events(self)
    }

    open spec fn inv(&self) -> bool {
        crate::kvdisp::Visitor::wf(self)
    }

    open spec fn prefix0(&self) -> Seq<char> {
        crate::kvdisp::Visitor::prefix0(self)
    }

    open spec fn sink0(&self) -> Seq<char> {
        crate::kvdisp::Visitor::sink0(self)
    }

    open spec fn cap(&self) -> Option<usize> {
        crate::kvdisp::Visitor::cap(self)
    }

    fn kv_u64(&mut self, key: Option<&str>, val: u64) {
        crate::kvdisp::Visitor::kv_u64(self, key, val);
    }

    fn kv_i64(&mut self, key: Option<&str>, val: i64) {
        crate::kvdisp::Visitor::kv_i64(self, key, val);
    }

    fn kv_f64_text(&mut self, key: Option<&str>, val: &str) {
        crate::kvdisp::Visitor::kv_f64_text(self, key, val);
    }

    fn kv_bool(&mut self, key: Option<&str>, val: bool) {
        crate::kvdisp::Visitor::kv_bool(self, key, val);
    }

    fn kv_null(&mut self, key: Option<&str>) {
        crate::kvdisp::Visitor::kv_null(self, key);
    }

    fn kv_str(&mut self, key: Option<&str>, val: &str) {
        crate::kvdisp::Visitor::kv_str(self, key, val);
    }

    fn kv_fmt(&mut self, key: Option<&str>, val: &str) {
        crate::kvdisp::Visitor::kv_fmt(self, key, val);
    }

    fn kv_map(&mut self, key: Option<&str>) {
        crate::kvdisp::Visitor::kv_map(self, key);
    }

    fn kv_mapend(&mut self, key: Option<&str>) {
        crate::kvdisp::Visitor::kv_mapend(self, key);
    }

    fn kv_arr(&mut self, key: Option<&str>) {
        crate::kvdisp::Visitor::kv_arr(self, key);
    }

    fn kv_arrend(&mut self, key: Option<&str>) {
        crate::kvdisp::Visitor::kv_arrend(self, key);
    }
}

impl LogVisitor for crate::kvjson::Visitor {
    open spec fn stream(&self) -> Seq<EventV> {
        crate::kvjson::Visitor::events(self)
    }

    open spec fn inv(&self) -> bool {
        crate::kvjson::Visitor::wf(self)
    }

    open spec fn prefix0(&self) -> Seq<char> {
        crate::kvjson::Visitor::prefix0(self)
    }

    open spec fn sink0(&self) -> Seq<char> {
        crate::kvjson::Visitor::sink0(self)
    }

    open spec fn cap(&self) -> Option<usize> {
        crate::kvjson::Visitor::cap(self)
    }

    fn kv_u64(&mut self, key: Option<&str>, val: u64) {
        crate::kvjson::Visitor::kv_u64(self, key, val);
    }

    fn kv_i64(&mut self, key: Option<&str>, val: i64) {
        crate::kvjson::Visitor::kv_i64(self, key, val);
    }

    fn kv_f64_text(&mut self, key: Option<&str>, val: &str) {
        crate::kvjson::Visitor::kv_f64_text(self, key, val);
    }

    fn kv_bool(&mut self, key: Option<&str>, val: bool) {
        crate::kvjson::Visitor::kv_bool(self, key, val);
    }

    fn kv_null(&mut self, key: Option<&str>) {
        crate::kvjson::Visitor::kv_null(self, key);
    }

    fn kv_str(&mut self, key: Option<&str>, val: &str) {
        crate::kvjson::Visitor::kv_str(self, key, val);
    }

    fn kv_fmt(&mut self, key: Option<&str>, val: &str) {
        crate::kvjson::Visitor::kv_fmt(self, key, val);
    }

    fn kv_map(&mut self, key: Option<&str>) {
        crate::kvjson::Visitor::kv_map(self, key);
    }

    fn kv_mapend(&mut self, key: Option<&str>) {
        crate::kvjson::Visitor::kv_mapend(self, key);
    }

    fn kv_arr(&mut self, key: Option<&str>) {
        crate::kvjson::Visitor::kv_arr(self, key);
    }

    fn kv_arrend(&mut self, key: Option<&str>) {
        crate::kvjson::Visitor::kv_arrend(self, key);
    }
}

/// Maps native values onto the visitor protocol: scalars widen to
/// their 64-bit form, sequences become arrays of keyless elements.
pub trait Visitable {
    /// The events that visiting this value under `key` emits.
    spec fn to_events(&self, key: Option<Seq<char>>) -> Seq<EventV>;

    /// Issues this value's events against the renderer.
    fn visit<V: LogVisitor>(&self, key: Option<&str>, output: &mut V)
        requires
            old(output).inv(),
        ensures
            final(output).inv(),
            final(output).stream() == old(output).stream() + self.to_events(key_view(key)),
            final(output).prefix0() == old(output).prefix0(),
            final(output).sink0() == old(output).sink0(),
            final(output).cap() == old(output).cap(),
    ;
}

impl Visitable for u64 {
    open spec fn to_events(&self, key: Option<Seq<char>>) -> Seq<EventV> {
        seq![EventV::U64 { key, val: *self }]
    }

    fn visit<V: LogVisitor>(&self, key: Option<&str>, output: &mut V) {
        output.kv_u64(key, *self);
        proof {
            assert(output.stream() =~= old(output).stream() + self.to_events(key_view(key)));
        }
    }
}

impl Visitable for u32 {
    open spec fn to_events(&self, key: Option<Seq<char>>) -> Seq<EventV> {
        seq![EventV::U64 { key, val: *self as u64 }]
    }

    fn visit<V: LogVisitor>(&self, key: Option<&str>, output: &mut V) {
        output.kv_u64(key, *self as u64);
        proof {
            assert(output.stream() =~= old(output).stream() + self.to_events(key_view(key)));
        }
    }
}

impl Visitable for u16 {
    open spec fn to_events(&self, key: Option<Seq<char>>) -> Seq<EventV> {
        seq![EventV::U64 { key, val: *self as u64 }]
    }

    fn visit<V: LogVisitor>(&self, key: Option<&str>, output: &mut V) {
        output.kv_u64(key, *self as u64);
        proof {
            assert(output.stream() =~= old(output).stream() + self.to_events(key_view(key)));
        }
    }
}

impl Visitable for u8 {
    open spec fn to_events(&self, key: Option<Seq<char>>) -> Seq<EventV> {
        seq![EventV::U64 { key, val: *self as u64 }]
    }

    fn visit<V: LogVisitor>(&self, key: Option<&str>, output: &mut V) {
        output.kv_u64(key, *self as u64);
        proof {
            assert(output.stream() =~= old(output).stream() + self.to_events(key_view(key)));
        }
    }
}

impl Visitable for usize {
    open spec fn to_events(&self, key: Option<Seq<char>>) -> Seq<EventV> {
        seq![EventV::U64 { key, val: *self as u64 }]
    }

    fn visit<V: LogVisitor>(&self, key: Option<&str>, output: &mut V) {
        output.kv_u64(key, *self as u64);
        proof {
            assert(output.stream() =~= old(output).stream() + self.to_events(key_view(key)));
        }
    }
}

impl Visitable for i64 {
    open spec fn to_events(&self, key: Option<Seq<char>>) -> Seq<EventV> {
        seq![EventV::I64 { key, val: *self }]
    }

    fn visit<V: LogVisitor>(&self, key: Option<&str>, output: &mut V) {
        output.kv_i64(key, *self);
        proof {
            assert(output.stream() =~= old(output).stream() + self.to_events(key_view(key)));
        }
    }
}

impl Visitable for i32 {
    open spec fn to_events(&self, key: Option<Seq<char>>) -> Seq<EventV> {
        seq![EventV::I64 { key, val: *self as i64 }]
    }

    fn visit<V: LogVisitor>(&self, key: Option<&str>, output: &mut V) {
        output.kv_i64(key, *self as i64);
        proof {
            assert(output.stream() =~= old(output).stream() + self.to_events(key_view(key)));
        }
    }
}

impl Visitable for i16 {
    open spec fn to_events(&self, key: Option<Seq<char>>) -> Seq<EventV> {
        seq![EventV::I64 { key, val: *self as i64 }]
    }

    fn visit<V: LogVisitor>(&self, key: Option<&str>, output: &mut V) {
        output.kv_i64(key, *self as i64);
        proof {
            assert(output.stream() =~= old(output).stream() + self.to_events(key_view(key)));
        }
    }
}

impl Visitable for i8 {
    open spec fn to_events(&self, key: Option<Seq<char>>) -> Seq<EventV> {
        seq![EventV::I64 { key, val: *self as i64 }]
    }

    fn visit<V: LogVisitor>(&self, key: Option<&str>, output: &mut V) {
        output.kv_i64(key, *self as i64);
        proof {
            assert(output.stream() =~= old(output).stream() + self.to_events(key_view(key)));
        }
    }
}

impl Visitable for isize {
    open spec fn to_events(&self, key: Option<Seq<char>>) -> Seq<EventV> {
        seq![EventV::I64 { key, val: *self as i64 }]
    }

    fn visit<V: LogVisitor>(&self, key: Option<&str>, output: &mut V) {
        output.kv_i64(key, *self as i64);
        proof {
            assert(output.stream() =~= old(output).stream() + self.to_events(key_view(key)));
        }
    }
}

impl Visitable for bool {
    open spec fn to_events(&self, key: Option<Seq<char>>) -> Seq<EventV> {
        seq![EventV::Bool { key, val: *self }]
    }

    fn visit<V: LogVisitor>(&self, key: Option<&str>, output: &mut V) {
        output.kv_bool(key, *self);
        proof {
            assert(output.stream() =~= old(output).stream() + self.to_events(key_view(key)));
        }
    }
}

impl Visitable for () {
    open spec fn to_events(&self, key: Option<Seq<char>>) -> Seq<EventV> {
        seq![EventV::Null { key }]
    }

    fn visit<V: LogVisitor>(&self, key: Option<&str>, output: &mut V) {
        output.kv_null(key);
        proof {
            assert(output.stream() =~= old(output).stream() + self.to_events(key_view(key)));
        }
    }
}

impl Visitable for String {
    open spec fn to_events(&self, key: Option<Seq<char>>) -> Seq<EventV> {
        seq![EventV::Str { key, val: self@ }]
    }

    fn visit<V: LogVisitor>(&self, key: Option<&str>, output: &mut V) {
        output.kv_str(key, self.as_str());
        proof {
            assert(output.stream() =~= old(output).stream() + self.to_events(key_view(key)));
        }
    }
}

impl<'a> Visitable for &'a str {
    open spec fn to_events(&self, key: Option<Seq<char>>) -> Seq<EventV> {
        seq![EventV::Str { key, val: (*self)@ }]
    }

    fn visit<V: LogVisitor>(&self, key: Option<&str>, output: &mut V) {
        output.kv_str(key, *self);
        proof {
            assert(output.stream() =~= old(output).stream() + self.to_events(key_view(key)));
        }
    }
}

impl Visitable for char {
    open spec fn to_events(&self, key: Option<Seq<char>>) -> Seq<EventV> {
        seq![EventV::Fmt { key, text: seq![*self] }]
    }

    fn visit<V: LogVisitor>(&self, key: Option<&str>, output: &mut V) {
        let mut text = String::new();
        push_char(&mut text, *self);
        output.kv_fmt(key, text.as_str());
        proof {
            assert(text@ =~= seq![*self]);
            assert(output.stream() =~= old(output).stream() + self.to_events(key_view(key)));
        }
    }
}

impl Visitable for u128 {
    open spec fn to_events(&self, key: Option<Seq<char>>) -> Seq<EventV> {
        seq![EventV::Fmt { key, text: dec_digits(*self as int) }]
    }

    fn visit<V: LogVisitor>(&self, key: Option<&str>, output: &mut V) {
        let text = u128_text(*self);
        output.kv_fmt(key, text.as_str());
        proof {
            assert(output.stream() =~= old(output).stream() + self.to_events(key_view(key)));
        }
    }
}

impl Visitable for i128 {
    open spec fn to_events(&self, key: Option<Seq<char>>) -> Seq<EventV> {
        seq![EventV::Fmt { key, text: int_text(*self as int) }]
    }

    fn visit<V: LogVisitor>(&self, key: Option<&str>, output: &mut V) {
        let text = i128_text(*self);
        output.kv_fmt(key, text.as_str());
        proof {
            assert(output.stream() =~= old(output).stream() + self.to_events(key_view(key)));
        }
    }
}

/// The events a row of elements emits, each visited without a key.
pub open spec fn elems_events<T: Visitable>(elems: Seq<T>) -> Seq<EventV>
    decreases elems.len(),
{
    if elems.len() == 0 {
        Seq::empty()
    } else {
        elems_events(elems.drop_last()) + elems.last().to_events(None)
    }
}

impl<T: Visitable> Visitable for Vec<T> {
    open spec fn to_events(&self, key: Option<Seq<char>>) -> Seq<EventV> {
        seq![EventV::ArrOpen { key }] + elems_events(self@) + seq![EventV::ArrClose { key }]
    }

    fn visit<V: LogVisitor>(&self, key: Option<&str>, output: &mut V) {
        output.kv_arr(key);
        let n: usize = self.len();
        let mut i: usize = 0;
        while i < n
            invariant
                old(output).inv(),
                output.inv(),
                output.prefix0() == old(output).prefix0(),
                output.sink0() == old(output).sink0(),
                output.cap() == old(output).cap(),
                i <= n,
                n == self@.len(),
                output.stream() == old(output).stream() + seq![
                    EventV::ArrOpen { key: key_view(key) },
                ] + elems_events(self@.take(i as int)),
            decreases n - i,
        {
            self[i].visit(None, output);
            proof {
                assert(self@.take(i + 1).drop_last() =~= self@.take(i as int));
                assert(self@.take(i + 1).last() == self@[i as int]);
                assert(key_view(None::<&str>) == None::<Seq<char>>);
                assert(output.stream() =~= old(output).stream() + seq![
                    EventV::ArrOpen { key: key_view(key) },
                ] + elems_events(self@.take(i + 1)));
            }
            i = i + 1;
        }
        output.kv_arrend(key);
        proof {
            assert(self@.take(n as int) =~= self@);
            assert(output.stream() =~= old(output).stream() + self.to_events(key_view(key)));
        }
    }
}

} // verus!
