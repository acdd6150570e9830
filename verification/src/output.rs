//! What the emulator does to the outside while it handles a command: lines
//! for the log pane and sounds.

use vstd::prelude::*;

use crate::text;

verus! {

/// One thing to perform, in the order in which they were asked for.
#[derive(Debug)]
pub enum Effect {
    /// Show a line in the log.
    Log(String),
    /// Sound the wall-touch beep once.
    Beep,
    /// Sound the starter's three beeps.
    StarterBeeps,
}

/// What an [`Effect`] stands for.
pub enum EffectView {
    Log(Seq<char>),
    Beep,
    StarterBeeps,
}

impl View for Effect {
    type V = EffectView;

    open spec fn view(&self) -> EffectView {
        match self {
            Effect::Log(s) => EffectView::Log(s@),
            Effect::Beep => EffectView::Beep,
            Effect::StarterBeeps => EffectView::StarterBeeps,
        }
    }
}

/// What a list of effects stands for.
pub open spec fn effects(v: Seq<Effect>) -> Seq<EffectView> {
    Seq::new(v.len(), |i: int| v[i]@)
}

/// Log lines as effects.
pub open spec fn logs(lines: Seq<Seq<char>>) -> Seq<EffectView> {
    Seq::new(lines.len(), |i: int| EffectView::Log(lines[i]))
}

/// One log line as an effect list.
pub open spec fn log1(line: Seq<char>) -> Seq<EffectView> {
    seq![EffectView::Log(line)]
}

/// Adds one effect.
pub fn emit(out: &mut Vec<Effect>, e: Effect)
    ensures
        effects(final(out)@) == effects(old(out)@).push(e@),
        effects(final(out)@) == effects(old(out)@) + seq![e@],
{
    let ghost before = out@;
    out.push(e);
    assert(effects(out@) =~= effects(before).push(e@));
    assert(effects(out@) =~= effects(before) + seq![e@]);
}

/// Adds lines for the log.
pub fn say_all(out: &mut Vec<Effect>, lines: &Vec<String>)
    ensures
        effects(final(out)@) == effects(old(out)@) + logs(text::texts(lines@)),
{
    let ghost before = effects(out@);
    let ghost all = text::texts(lines@);
    let n: usize = lines.len();
    let mut i: usize = 0;
    assert(before + logs(all.take(0)) =~= before);
    while i < n
        invariant
            n == lines@.len(),
            all == text::texts(lines@),
            i <= n,
            effects(out@) == before + logs(all.take(i as int)),
        decreases n - i,
    {
        say(out, lines[i].clone());
        i = i + 1;
        assert(all.take(i as int) =~= all.take(i - 1).push(all[i - 1]));
        assert(before + logs(all.take(i - 1)) + log1(all[i - 1]) =~= before + logs(
            all.take(i as int),
        ));
    }
    assert(all.take(n as int) =~= all);
}

/// Adds one line for the log.
pub fn say(out: &mut Vec<Effect>, line: String)
    ensures
        effects(final(out)@) == effects(old(out)@) + log1(line@),
{
    emit(out, Effect::Log(line));
}

/// Lines for the log are logged one by one, in order.
pub proof fn law_lines_are_logged_in_order(lines: Seq<Seq<char>>, i: int)
    ensures
        logs(lines).len() == lines.len(),
        0 <= i < lines.len() ==> logs(lines)[i] == EffectView::Log(lines[i]),
        0 <= i < lines.len() ==> log1(lines[i]).len() == 1 && log1(lines[i])[0] == EffectView::Log(
            lines[i],
        ),
{
}

/// What a list of effects holds is what its entries are, in order.
pub proof fn law_effect_views(v: Seq<Effect>, i: int)
    ensures
        effects(v).len() == v.len(),
        0 <= i < v.len() ==> match v[i] {
            Effect::Log(s) => effects(v)[i] == EffectView::Log(s@),
            Effect::Beep => effects(v)[i] is Beep,
            Effect::StarterBeeps => effects(v)[i] is StarterBeeps,
        },
{
}

} // verus!
