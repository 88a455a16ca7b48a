//! The hot-swappable rule list and compiled rule engine.
use vstd::prelude::*;

use crate::rete::engine::Engine;
use crate::rete::Network;
use crate::rule::Rule;

verus! {

/// The current YAML rule list (used for upstream routing) and the current
/// compiled rule engine; a reload replaces either one whole.
pub struct RuleStore {
    rules: Vec<Rule>,
    engine: Engine,
}

impl RuleStore {
    pub closed spec fn rules(&self) -> Seq<Rule> {
        self.rules@
    }

    pub closed spec fn current_engine(&self) -> Engine {
        self.engine
    }

    /// The store's engine is well formed.
    pub closed spec fn wf(&self) -> bool {
        self.engine.wf()
    }

    /// A store holding `initial` and an engine with no rules.
    pub fn new(initial: Vec<Rule>) -> (r: Self)
        ensures
            r.wf(),
            r.rules() == initial@,
            r.current_engine().network.terminals@.len() == 0,
            r.current_engine().network.alphas@.len() == 0,
            r.current_engine().registry.lists() is None,
            r.current_engine().crs is None,
    {
        RuleStore { rules: initial, engine: Engine::new(Network::new()) }
    }

    /// Replace the rule list.
    pub fn reload(&mut self, rules: Vec<Rule>)
        ensures
            final(self).rules() == rules@,
            final(self).current_engine() == old(self).current_engine(),
            final(self).wf() == old(self).wf(),
    {
        self.rules = rules;
    }

    /// Replace the compiled engine.
    pub fn reload_engine(&mut self, engine: Engine)
        requires
            engine.wf(),
        ensures
            final(self).wf(),
            final(self).current_engine() == engine,
            final(self).rules() == old(self).rules(),
    {
        self.engine = engine;
    }

    /// The current rules.
    pub fn snapshot(&self) -> (r: &Vec<Rule>)
        ensures
            r@ == self.rules(),
    {
        &self.rules
    }

    /// The current engine.
    pub fn engine(&self) -> (r: &Engine)
        ensures
            *r == self.current_engine(),
            self.wf() ==> r.wf(),
    {
        &self.engine
    }
}

} // verus!
