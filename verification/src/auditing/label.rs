//! The message shown at an effect's location during an audit.
use vstd::prelude::*;

use crate::effect::{instance_views, Effect, EffectInstance, EffectInstanceView, EffectView};
use crate::ident::CanonicalPath;
use crate::text::{push_str, str_eq};

verus! {

/// The line that an effect of a block adds to the message: sink and FFI calls only.
pub open spec fn effect_line(e: EffectView) -> Option<Seq<char>> {
    match e {
        EffectView::SinkCall(s) => Some("sink call: "@ + s),
        EffectView::FFICall(p) => Some("ffi call: "@ + p),
        _ => None,
    }
}

/// The lines of the effects, in order.
pub open spec fn effect_lines(es: Seq<EffectInstanceView>) -> Seq<Seq<char>>
    decreases es.len(),
{
    if es.len() == 0 {
        Seq::empty()
    } else {
        match effect_line(es.last().eff_type) {
            Some(l) => effect_lines(es.drop_last()).push(l),
            None => effect_lines(es.drop_last()),
        }
    }
}

/// Lines joined with a newline between consecutive lines.
pub open spec fn join_lines(ls: Seq<Seq<char>>) -> Seq<char>
    decreases ls.len(),
{
    if ls.len() == 0 {
        Seq::empty()
    } else if ls.len() == 1 {
        ls[0]
    } else {
        join_lines(ls.drop_last()) + "\n"@ + ls.last()
    }
}

/// The message at an effect whose caller is `caller`, found in the block of
/// function `containing_fn` with effects `block`: in that function, one line per
/// sink or FFI call of the block; elsewhere, that the call was marked
/// callee-checked.
pub open spec fn label_text(containing_fn: Seq<char>, block: Seq<EffectInstanceView>, caller: Seq<char>) -> Seq<char> {
    if containing_fn == caller {
        join_lines(effect_lines(block))
    } else {
        "call safety marked as callee-checked"@
    }
}

/// The message shown at an effect during an audit.
pub fn effect_label(containing_fn: &CanonicalPath, block: &Vec<EffectInstance>, caller: &CanonicalPath) -> (r: String)
    ensures
        r@ == label_text(containing_fn@, instance_views(block@), caller@),
{
    proof {
        reveal_strlit("sink call: ");
        reveal_strlit("ffi call: ");
        reveal_strlit("\n");
        reveal_strlit("call safety marked as callee-checked");
    }
    if !str_eq(containing_fn.as_str(), caller.as_str()) {
        let mut s = String::new();
        push_str(&mut s, "call safety marked as callee-checked");
        return s;
    }
    let ghost es = instance_views(block@);
    let mut s = String::new();
    let mut i: usize = 0;
    let mut any = false;
    proof {
        assert(es.take(0) =~= Seq::<EffectInstanceView>::empty());
    }
    while i < block.len()
        invariant
            i <= block.len(),
            es == instance_views(block@),
            s@ == join_lines(effect_lines(es.take(i as int))),
            any == (effect_lines(es.take(i as int)).len() > 0),
        decreases block.len() - i,
    {
        let ghost prev = effect_lines(es.take(i as int));
        proof {
            assert(es.take(i + 1).drop_last() =~= es.take(i as int));
            assert(es.take(i + 1).last() == block@[i as int]@);
        }
        match block[i].eff_type() {
            Effect::SinkCall(sink) => {
                if any {
                    push_str(&mut s, "\n");
                }
                any = true;
                push_str(&mut s, "sink call: ");
                push_str(&mut s, sink.as_str());
                proof {
                    let l = "sink call: "@ + sink@;
                    assert(effect_lines(es.take(i + 1)) == prev.push(l));
                    assert(prev.push(l).drop_last() =~= prev);
                    if prev.len() == 0 {
                        assert(s@ =~= l);
                    } else {
                        assert(s@ =~= join_lines(prev) + "\n"@ + l);
                    }
                }
            },
            Effect::FFICall(call) => {
                if any {
                    push_str(&mut s, "\n");
                }
                any = true;
                push_str(&mut s, "ffi call: ");
                push_str(&mut s, call.as_str());
                proof {
                    let l = "ffi call: "@ + call@;
                    assert(effect_lines(es.take(i + 1)) == prev.push(l));
                    assert(prev.push(l).drop_last() =~= prev);
                    if prev.len() == 0 {
                        assert(s@ =~= l);
                    } else {
                        assert(s@ =~= join_lines(prev) + "\n"@ + l);
                    }
                }
            },
            _ => {},
        }
        i = i + 1;
    }
    proof {
        assert(es.take(block.len() as int) =~= es);
    }
    s
}

} // verus!
