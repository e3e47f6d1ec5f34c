//! One operation applied to a store, and what is left to do afterwards.

use vstd::prelude::*;
use crate::config::{Operation, OperationView};
use crate::context::{resolve, resolve_all, store_set, store_unset, Context, ContextView};
use crate::values::ValueMap;

verus! {

/// What is left to do once an operation was applied to a store.
#[derive(Debug)]
pub enum Effect {
    /// Show every visible value.
    ShowAll(ValueMap),
    /// Show one value, or that there is none.
    ShowOne(Option<String>),
    /// Write the changed store to its backing file.
    Save,
    /// Show the path of the backing file.
    ShowConfigPath(String),
}

/// The mathematical value of an `Effect`.
pub enum EffectView {
    ShowAll(Map<Seq<char>, Seq<char>>),
    ShowOne(Option<Seq<char>>),
    Save,
    ShowConfigPath(Seq<char>),
}

impl View for Effect {
    type V = EffectView;

    open spec fn view(&self) -> EffectView {
        match self {
            Effect::ShowAll(values) => EffectView::ShowAll(values@),
            Effect::ShowOne(Some(value)) => EffectView::ShowOne(Some(value@)),
            Effect::ShowOne(None) => EffectView::ShowOne(None),
            Effect::Save => EffectView::Save,
            Effect::ShowConfigPath(path) => EffectView::ShowConfigPath(path@),
        }
    }
}

/// The store after an operation. Only `Add` and `Remove` change it, and only
/// at the working directory.
pub open spec fn applied(context: ContextView, operation: OperationView) -> ContextView {
    match operation {
        OperationView::Add(key, value) => ContextView {
            data: store_set(context.data, context.pwd, key, value),
            ..context
        },
        OperationView::Remove(key) => ContextView {
            data: store_unset(context.data, context.pwd, key),
            ..context
        },
        _ => context,
    }
}

/// What is left to do after an operation: the values to show as seen from the
/// working directory, the path to show, or the store to save after a change.
pub open spec fn effect_of(context: ContextView, operation: OperationView) -> EffectView {
    match operation {
        OperationView::Print(None) => EffectView::ShowAll(resolve_all(context.data, context.pwd)),
        OperationView::Print(Some(key)) => EffectView::ShowOne(
            resolve(context.data, context.pwd, key),
        ),
        OperationView::Add(_, _) => EffectView::Save,
        OperationView::Remove(_) => EffectView::Save,
        OperationView::Config => EffectView::ShowConfigPath(context.config_path),
    }
}

impl Context {
    /// Applies one operation to the store and says what is left to do.
    pub fn apply(&mut self, operation: Operation) -> (effect: Effect)
        ensures
            final(self)@ == applied(old(self)@, operation@),
            effect@ == effect_of(old(self)@, operation@),
    {
        match operation {
            Operation::Print(None) => Effect::ShowAll(self.get_value_all()),
            Operation::Print(Some(key)) => {
                match self.get_value(key.as_str()) {
                    Some(value) => Effect::ShowOne(Some(value.clone())),
                    None => Effect::ShowOne(None),
                }
            },
            Operation::Add(key, value) => {
                self.set_value(key, value);
                Effect::Save
            },
            Operation::Remove(key) => {
                self.remove_value(key.as_str());
                Effect::Save
            },
            Operation::Config => Effect::ShowConfigPath(self.config_path().clone()),
        }
    }
}

} // verus!
