//! The interactive session: a modal keyboard state machine over the command
//! store.  Navigation walks categories, then the commands of the selected
//! category, then the two per-command action buttons; a text-capture sub-mode
//! gathers new entries and edits in an input buffer.
//!
//! The whole machine is defined once, mathematically, by [`spec_step`]; the
//! executable dispatcher [`Session::handle_key`] is proved to follow it key
//! by key.  The caller runs the surrounding loop: it paints the state, reads
//! one key, and acts on the returned [`Effect`].

use crate::store::CategoryModel;
use crate::store::EntryModel;
use crate::store::Store;
use crate::store::lemma_cat_index_is;
use crate::store::lemma_entry_index_is;
use crate::store::spec_has_alias;
use crate::store::spec_has_category;
use crate::store::unique_aliases;
use crate::text::chars_to_string;
use crate::text::is_space_char;
use crate::text::lemma_space_index;
use crate::text::space_index;
use crate::text::split_first_space;
use vstd::prelude::*;

verus! {

/// Which list level the session is navigating.
#[derive(Clone, Copy, PartialEq, Eq, Structural, Debug)]
pub enum Mode {
    Category,
    Command,
    Buttons,
}

/// Whether keys navigate or are captured into the input buffer.
#[derive(Clone, Copy, PartialEq, Eq, Structural, Debug)]
pub enum InputMode {
    Normal,
    Editing,
    Adding,
}

/// One keyboard event, as the session understands it.  The caller translates
/// whatever its terminal backend reports into this.
#[derive(Clone, Copy, PartialEq, Eq, Debug)]
pub enum Key {
    Up,
    Down,
    Left,
    Right,
    Enter,
    Esc,
    Backspace,
    Char(char),
    Other,
}

/// What the caller owes after one key: keep looping, write the store to its
/// file and keep looping, end the session, or end it by running the named
/// command.
pub enum Effect {
    Continue,
    Persist,
    Quit,
    Run { category: String, alias: String },
}

/// Mathematical model of an [`Effect`].
#[verifier::ext_equal]
pub enum EffectModel {
    Continue,
    Persist,
    Quit,
    Run { category: Seq<char>, alias: Seq<char> },
}

impl View for Effect {
    type V = EffectModel;

    open spec fn view(&self) -> EffectModel {
        match self {
            Effect::Continue => EffectModel::Continue,
            Effect::Persist => EffectModel::Persist,
            Effect::Quit => EffectModel::Quit,
            Effect::Run { category, alias } => EffectModel::Run {
                category: category@,
                alias: alias@,
            },
        }
    }
}

/// Mathematical model of a [`Session`].
#[verifier::ext_equal]
pub struct SessionModel {
    pub mode: Mode,
    pub input_mode: InputMode,
    pub selected_category: Option<int>,
    pub selected_command: Option<int>,
    pub selected_button: Option<int>,
    pub input: Seq<char>,
}

/// The session state: navigation mode, input sub-mode, the selection at each
/// level, and the pending input buffer.  Created at session start, never
/// persisted.
pub struct Session {
    pub mode: Mode,
    pub input_mode: InputMode,
    pub selected_category: Option<usize>,
    pub selected_command: Option<usize>,
    pub selected_button: Option<usize>,
    pub input: Vec<char>,
}

impl View for Session {
    type V = SessionModel;

    open spec fn view(&self) -> SessionModel {
        SessionModel {
            mode: self.mode,
            input_mode: self.input_mode,
            selected_category: match self.selected_category {
                Some(i) => Some(i as int),
                None => None,
            },
            selected_command: match self.selected_command {
                Some(j) => Some(j as int),
                None => None,
            },
            selected_button: match self.selected_button {
                Some(b) => Some(b as int),
                None => None,
            },
            input: self.input@,
        }
    }
}

/// What one key produced: the next session state, the next store contents,
/// and the effect owed by the caller.
#[verifier::ext_equal]
pub struct StepModel {
    pub session: SessionModel,
    pub cats: Seq<CategoryModel>,
    pub effect: EffectModel,
}

/// The session invariant, over the store's contents.  A category is selected
/// exactly while one exists, and every selection indexes its list; at the
/// command level an index 0 stands for the empty list, so that Down can open
/// text capture there.  Editing is reachable only behind the buttons.
pub open spec fn model_inv(s: SessionModel, cats: Seq<CategoryModel>) -> bool {
    &&& (s.selected_category is None <==> cats.len() == 0)
    &&& (s.selected_category matches Some(i) ==> 0 <= i < cats.len())
    &&& ((s.mode is Command || s.mode is Buttons) ==> {
        &&& s.selected_category is Some
        &&& s.selected_command matches Some(j) && 0 <= j && (j < cats[s.selected_category->0].entries.len()
            || (j == 0 && cats[s.selected_category->0].entries.len() == 0))
    })
    &&& (s.mode is Buttons ==> {
        &&& s.selected_command->0 < cats[s.selected_category->0].entries.len()
        &&& s.selected_button matches Some(b) && 0 <= b <= 1
    })
    &&& (s.input_mode is Editing ==> s.mode is Buttons)
}

/// A step that changes nothing and asks nothing of the caller.
pub open spec fn stay(s: SessionModel, cats: Seq<CategoryModel>) -> StepModel {
    StepModel { session: s, cats: cats, effect: EffectModel::Continue }
}

/// The session with text capture just opened: an empty buffer waits for a
/// new entry.
pub open spec fn with_adding(s: SessionModel) -> SessionModel {
    SessionModel { input_mode: InputMode::Adding, input: Seq::<char>::empty(), ..s }
}

/// The session back in navigation, the buffer discarded.
pub open spec fn with_normal(s: SessionModel) -> SessionModel {
    SessionModel { input_mode: InputMode::Normal, input: Seq::<char>::empty(), ..s }
}

/// One key at the category list, outside text capture.
pub open spec fn step_category(s: SessionModel, cats: Seq<CategoryModel>, key: Key) -> StepModel {
    match key {
        Key::Esc => StepModel { session: s, cats: cats, effect: EffectModel::Quit },
        Key::Up => match s.selected_category {
            Some(i) => if i > 0 {
                StepModel {
                    session: SessionModel { selected_category: Some(i - 1), ..s },
                    cats: cats,
                    effect: EffectModel::Continue,
                }
            } else {
                stay(s, cats)
            },
            None => stay(s, cats),
        },
        Key::Down => if cats.len() == 0 {
            StepModel { session: with_adding(s), cats: cats, effect: EffectModel::Continue }
        } else {
            match s.selected_category {
                Some(i) => if i + 1 < cats.len() {
                    StepModel {
                        session: SessionModel { selected_category: Some(i + 1), ..s },
                        cats: cats,
                        effect: EffectModel::Continue,
                    }
                } else {
                    StepModel {
                        session: with_adding(s),
                        cats: cats,
                        effect: EffectModel::Continue,
                    }
                },
                None => stay(s, cats),
            }
        },
        Key::Right | Key::Enter => if cats.len() > 0 {
            StepModel {
                session: SessionModel { mode: Mode::Command, selected_command: Some(0int), ..s },
                cats: cats,
                effect: EffectModel::Continue,
            }
        } else {
            stay(s, cats)
        },
        Key::Char(c) => if c == 'd' {
            match s.selected_category {
                Some(i) => {
                    let rest = cats.remove(i);
                    let sel = if i < rest.len() {
                        Some(i)
                    } else if rest.len() == 0 {
                        None
                    } else {
                        Some(rest.len() - 1)
                    };
                    StepModel {
                        session: SessionModel { selected_category: sel, ..s },
                        cats: rest,
                        effect: EffectModel::Persist,
                    }
                },
                None => stay(s, cats),
            }
        } else {
            stay(s, cats)
        },
        _ => stay(s, cats),
    }
}

/// One key at the command list, outside text capture.
pub open spec fn step_command(s: SessionModel, cats: Seq<CategoryModel>, key: Key) -> StepModel {
    let ci = s.selected_category->0;
    let j = s.selected_command->0;
    let n = cats[ci].entries.len() as int;
    match key {
        Key::Esc => StepModel { session: s, cats: cats, effect: EffectModel::Quit },
        Key::Up => if j > 0 {
            StepModel {
                session: SessionModel { selected_command: Some(j - 1), ..s },
                cats: cats,
                effect: EffectModel::Continue,
            }
        } else {
            stay(s, cats)
        },
        Key::Down => if n == 0 || j >= n - 1 {
            StepModel { session: with_adding(s), cats: cats, effect: EffectModel::Continue }
        } else {
            StepModel {
                session: SessionModel { selected_command: Some(j + 1), ..s },
                cats: cats,
                effect: EffectModel::Continue,
            }
        },
        Key::Left => StepModel {
            session: SessionModel { mode: Mode::Category, selected_command: None, ..s },
            cats: cats,
            effect: EffectModel::Continue,
        },
        Key::Right => if n > 0 {
            StepModel {
                session: SessionModel { mode: Mode::Buttons, selected_button: Some(0int), ..s },
                cats: cats,
                effect: EffectModel::Continue,
            }
        } else {
            stay(s, cats)
        },
        Key::Enter => if n > 0 {
            StepModel {
                session: s,
                cats: cats,
                effect: EffectModel::Run {
                    category: cats[ci].name,
                    alias: cats[ci].entries[j].alias,
                },
            }
        } else {
            // an empty list holds nothing to run
            stay(s, cats)
        },
        _ => stay(s, cats),
    }
}

/// One key at the action buttons, outside text capture.
pub open spec fn step_buttons(s: SessionModel, cats: Seq<CategoryModel>, key: Key) -> StepModel {
    let ci = s.selected_category->0;
    let j = s.selected_command->0;
    let b = s.selected_button->0;
    match key {
        Key::Esc => StepModel { session: s, cats: cats, effect: EffectModel::Quit },
        Key::Left => if b > 0 {
            StepModel {
                session: SessionModel { selected_button: Some(b - 1), ..s },
                cats: cats,
                effect: EffectModel::Continue,
            }
        } else {
            StepModel {
                session: SessionModel { mode: Mode::Command, ..s },
                cats: cats,
                effect: EffectModel::Continue,
            }
        },
        Key::Right => if b < 1 {
            StepModel {
                session: SessionModel { selected_button: Some(b + 1), ..s },
                cats: cats,
                effect: EffectModel::Continue,
            }
        } else {
            stay(s, cats)
        },
        Key::Enter => if b == 0 {
            StepModel {
                session: SessionModel {
                    input: cats[ci].entries[j].text,
                    input_mode: InputMode::Editing,
                    ..s
                },
                cats: cats,
                effect: EffectModel::Continue,
            }
        } else {
            StepModel {
                session: SessionModel {
                    mode: Mode::Command,
                    selected_command: Some(0int),
                    ..s
                },
                cats: cats.update(
                    ci,
                    CategoryModel { name: cats[ci].name, entries: cats[ci].entries.remove(j) },
                ),
                effect: EffectModel::Persist,
            }
        },
        _ => stay(s, cats),
    }
}

/// One key while editing the selected command's text.
pub open spec fn step_editing(s: SessionModel, cats: Seq<CategoryModel>, key: Key) -> StepModel {
    let ci = s.selected_category->0;
    let j = s.selected_command->0;
    match key {
        Key::Enter => StepModel {
            session: SessionModel {
                mode: Mode::Command,
                input_mode: InputMode::Normal,
                input: Seq::<char>::empty(),
                ..s
            },
            cats: cats.update(
                ci,
                CategoryModel {
                    name: cats[ci].name,
                    entries: cats[ci].entries.update(
                        j,
                        EntryModel { alias: cats[ci].entries[j].alias, text: s.input },
                    ),
                },
            ),
            effect: EffectModel::Persist,
        },
        Key::Esc => StepModel { session: with_normal(s), cats: cats, effect: EffectModel::Continue },
        Key::Char(c) => StepModel {
            session: SessionModel { input: s.input.push(c), ..s },
            cats: cats,
            effect: EffectModel::Continue,
        },
        Key::Backspace => if s.input.len() > 0 {
            StepModel {
                session: SessionModel { input: s.input.drop_last(), ..s },
                cats: cats,
                effect: EffectModel::Continue,
            }
        } else {
            stay(s, cats)
        },
        _ => stay(s, cats),
    }
}

/// The Enter of text capture: what committing the buffer does.  A commit
/// that the rules refuse changes nothing and stays in text capture.
pub open spec fn step_adding_commit(s: SessionModel, cats: Seq<CategoryModel>) -> StepModel {
    if s.mode is Category && s.input.len() > 0 {
        if !spec_has_category(cats, s.input) {
            StepModel {
                session: SessionModel {
                    input_mode: InputMode::Normal,
                    input: Seq::<char>::empty(),
                    selected_category: if s.selected_category is None {
                        Some(0int)
                    } else {
                        s.selected_category
                    },
                    ..s
                },
                cats: cats.push(
                    CategoryModel { name: s.input, entries: Seq::<EntryModel>::empty() },
                ),
                effect: EffectModel::Persist,
            }
        } else {
            stay(s, cats)
        }
    } else if s.mode is Command && s.input.len() > 0 {
        let sp = space_index(s.input);
        if sp < s.input.len() {
            let alias = s.input.take(sp);
            let text = s.input.skip(sp + 1);
            let ci = s.selected_category->0;
            if !spec_has_alias(cats, cats[ci].name, alias) {
                StepModel {
                    session: SessionModel {
                        input_mode: InputMode::Normal,
                        input: Seq::<char>::empty(),
                        ..s
                    },
                    cats: cats.update(
                        ci,
                        CategoryModel {
                            name: cats[ci].name,
                            entries: cats[ci].entries.push(
                                EntryModel { alias: alias, text: text },
                            ),
                        },
                    ),
                    effect: EffectModel::Persist,
                }
            } else {
                stay(s, cats)
            }
        } else {
            stay(s, cats)
        }
    } else {
        stay(s, cats)
    }
}

/// One key while capturing a new category or command into the buffer.
pub open spec fn step_adding(s: SessionModel, cats: Seq<CategoryModel>, key: Key) -> StepModel {
    match key {
        Key::Enter => step_adding_commit(s, cats),
        Key::Esc | Key::Up => StepModel {
            session: with_normal(s),
            cats: cats,
            effect: EffectModel::Continue,
        },
        Key::Char(c) => StepModel {
            session: SessionModel { input: s.input.push(c), ..s },
            cats: cats,
            effect: EffectModel::Continue,
        },
        Key::Backspace => if s.input.len() > 0 {
            StepModel {
                session: SessionModel { input: s.input.drop_last(), ..s },
                cats: cats,
                effect: EffectModel::Continue,
            }
        } else {
            stay(s, cats)
        },
        _ => stay(s, cats),
    }
}

/// The whole machine: what one key does to the session and the store, and
/// what it asks of the caller.
pub open spec fn spec_step(s: SessionModel, cats: Seq<CategoryModel>, key: Key) -> StepModel {
    match s.input_mode {
        InputMode::Normal => match s.mode {
            Mode::Category => step_category(s, cats, key),
            Mode::Command => step_command(s, cats, key),
            Mode::Buttons => step_buttons(s, cats, key),
        },
        InputMode::Editing => step_editing(s, cats, key),
        InputMode::Adding => step_adding(s, cats, key),
    }
}

impl Session {
    /// The state a session starts in: browsing categories, the first one
    /// selected when any exists.
    pub fn init(store: &Store) -> (s: Session)
        ensures
            model_inv(s@, store@),
            s@ == (SessionModel {
                mode: Mode::Category,
                input_mode: InputMode::Normal,
                selected_category: if store@.len() > 0 {
                    Some(0int)
                } else {
                    None::<int>
                },
                selected_command: None::<int>,
                selected_button: None::<int>,
                input: Seq::<char>::empty(),
            }),
    {
        let selected_category: Option<usize> = if store.num_categories() > 0 {
            Some(0)
        } else {
            None
        };
        Session {
            mode: Mode::Category,
            input_mode: InputMode::Normal,
            selected_category,
            selected_command: None,
            selected_button: None,
            input: Vec::new(),
        }
    }

    /// One key at the category list, as [`step_category`] says.
    fn handle_category(&mut self, store: &mut Store, key: Key) -> (eff: Effect)
        requires
            old(self)@.input_mode is Normal,
            old(self)@.mode is Category,
            model_inv(old(self)@, old(store)@),
            old(store).wf(),
        ensures
            final(store).wf(),
            model_inv(final(self)@, final(store)@),
            (StepModel { session: final(self)@, cats: final(store)@, effect: eff@ })
                == step_category(old(self)@, old(store)@, key),
    {
        match key {
            Key::Esc => Effect::Quit,
            Key::Up => {
                match self.selected_category {
                    Some(i) => {
                        if i > 0 {
                            self.selected_category = Some(i - 1);
                        }
                    },
                    None => {},
                }
                Effect::Continue
            },
            Key::Down => {
                if store.num_categories() == 0 {
                    self.input_mode = InputMode::Adding;
                    self.input.clear();
                } else {
                    match self.selected_category {
                        Some(i) => {
                            if i + 1 < store.num_categories() {
                                self.selected_category = Some(i + 1);
                            } else {
                                self.input_mode = InputMode::Adding;
                                self.input.clear();
                            }
                        },
                        None => {},
                    }
                }
                Effect::Continue
            },
            Key::Right | Key::Enter => {
                if store.num_categories() > 0 {
                    self.mode = Mode::Command;
                    self.selected_command = Some(0);
                }
                Effect::Continue
            },
            Key::Char(c) => {
                if c == 'd' {
                    match self.selected_category {
                        Some(i) => {
                            let name = store.category_name(i).clone();
                            proof {
                                assert forall|k: int| 0 <= k < i implies store@[k].name
                                    != name@ by {}
                                lemma_cat_index_is(store@, name@, i as int);
                            }
                            store.remove_category(&name);
                            let new_len = store.num_categories();
                            if i < new_len {
                            } else if new_len == 0 {
                                self.selected_category = None;
                            } else {
                                self.selected_category = Some(new_len - 1);
                            }
                            Effect::Persist
                        },
                        None => Effect::Continue,
                    }
                } else {
                    Effect::Continue
                }
            },
            _ => Effect::Continue,
        }
    }

    /// One key at the command list, as [`step_command`] says.
    fn handle_command(&mut self, store: &mut Store, key: Key) -> (eff: Effect)
        requires
            old(self)@.input_mode is Normal,
            old(self)@.mode is Command,
            model_inv(old(self)@, old(store)@),
            old(store).wf(),
        ensures
            final(store).wf(),
            model_inv(final(self)@, final(store)@),
            (StepModel { session: final(self)@, cats: final(store)@, effect: eff@ })
                == step_command(old(self)@, old(store)@, key),
    {
        let ci = match self.selected_category {
            Some(i) => i,
            None => {
                proof {
                    assert(false);
                }
                0
            },
        };
        let j = match self.selected_command {
            Some(j) => j,
            None => {
                proof {
                    assert(false);
                }
                0
            },
        };
        let n = store.num_commands(ci);
        match key {
            Key::Esc => Effect::Quit,
            Key::Up => {
                if j > 0 {
                    self.selected_command = Some(j - 1);
                }
                Effect::Continue
            },
            Key::Down => {
                if n == 0 || j >= n - 1 {
                    self.input_mode = InputMode::Adding;
                    self.input.clear();
                } else {
                    self.selected_command = Some(j + 1);
                }
                Effect::Continue
            },
            Key::Left => {
                self.mode = Mode::Category;
                self.selected_command = None;
                Effect::Continue
            },
            Key::Right => {
                if n > 0 {
                    self.mode = Mode::Buttons;
                    self.selected_button = Some(0);
                }
                Effect::Continue
            },
            Key::Enter => {
                if n > 0 {
                    let category = store.category_name(ci).clone();
                    let alias = store.command_alias(ci, j).clone();
                    Effect::Run { category, alias }
                } else {
                    // an empty list holds nothing to run
                    Effect::Continue
                }
            },
            _ => Effect::Continue,
        }
    }

    /// One key at the action buttons, as [`step_buttons`] says.
    fn handle_buttons(&mut self, store: &mut Store, key: Key) -> (eff: Effect)
        requires
            old(self)@.input_mode is Normal,
            old(self)@.mode is Buttons,
            model_inv(old(self)@, old(store)@),
            old(store).wf(),
        ensures
            final(store).wf(),
            model_inv(final(self)@, final(store)@),
            (StepModel { session: final(self)@, cats: final(store)@, effect: eff@ })
                == step_buttons(old(self)@, old(store)@, key),
    {
        let ci = match self.selected_category {
            Some(i) => i,
            None => {
                proof {
                    assert(false);
                }
                0
            },
        };
        let j = match self.selected_command {
            Some(j) => j,
            None => {
                proof {
                    assert(false);
                }
                0
            },
        };
        let b = match self.selected_button {
            Some(b) => b,
            None => {
                proof {
                    assert(false);
                }
                0
            },
        };
        match key {
            Key::Esc => Effect::Quit,
            Key::Left => {
                if b > 0 {
                    self.selected_button = Some(b - 1);
                } else {
                    self.mode = Mode::Command;
                }
                Effect::Continue
            },
            Key::Right => {
                if b < 1 {
                    self.selected_button = Some(b + 1);
                }
                Effect::Continue
            },
            Key::Enter => {
                if b == 0 {
                    self.input = crate::text::string_to_chars(store.command_text(ci, j).as_str());
                    self.input_mode = InputMode::Editing;
                    Effect::Continue
                } else {
                    let name = store.category_name(ci).clone();
                    let alias = store.command_alias(ci, j).clone();
                    proof {
                        assert forall|k: int| 0 <= k < ci implies store@[k].name != name@ by {}
                        lemma_cat_index_is(store@, name@, ci as int);
                        assert(unique_aliases(store@[ci as int].entries));
                        assert forall|k: int| 0 <= k < j implies store@[ci as int].entries[k].alias
                            != alias@ by {}
                        lemma_entry_index_is(store@[ci as int].entries, alias@, j as int);
                    }
                    store.remove_command(&name, &alias);
                    self.mode = Mode::Command;
                    self.selected_command = Some(0);
                    Effect::Persist
                }
            },
            _ => Effect::Continue,
        }
    }

    /// One key while editing, as [`step_editing`] says.
    fn handle_editing(&mut self, store: &mut Store, key: Key) -> (eff: Effect)
        requires
            old(self)@.input_mode is Editing,
            model_inv(old(self)@, old(store)@),
            old(store).wf(),
        ensures
            final(store).wf(),
            model_inv(final(self)@, final(store)@),
            (StepModel { session: final(self)@, cats: final(store)@, effect: eff@ })
                == step_editing(old(self)@, old(store)@, key),
    {
        match key {
            Key::Enter => {
                let ci = match self.selected_category {
                    Some(i) => i,
                    None => {
                        proof {
                            assert(false);
                        }
                        0
                    },
                };
                let j = match self.selected_command {
                    Some(j) => j,
                    None => {
                        proof {
                            assert(false);
                        }
                        0
                    },
                };
                let name = store.category_name(ci).clone();
                let alias = store.command_alias(ci, j).clone();
                let text = chars_to_string(&self.input);
                proof {
                    assert forall|k: int| 0 <= k < ci implies store@[k].name != name@ by {}
                    lemma_cat_index_is(store@, name@, ci as int);
                    assert(unique_aliases(store@[ci as int].entries));
                    assert forall|k: int| 0 <= k < j implies store@[ci as int].entries[k].alias
                        != alias@ by {}
                    lemma_entry_index_is(store@[ci as int].entries, alias@, j as int);
                }
                store.add_or_update_command(&name, &alias, &text);
                self.mode = Mode::Command;
                self.input_mode = InputMode::Normal;
                self.input.clear();
                proof {
                    assert(final(store)@ =~~= step_editing(
                        old(self)@,
                        old(store)@,
                        key,
                    ).cats);
                }
                Effect::Persist
            },
            Key::Esc => {
                self.input_mode = InputMode::Normal;
                self.input.clear();
                Effect::Continue
            },
            Key::Char(c) => {
                self.input.push(c);
                Effect::Continue
            },
            Key::Backspace => {
                self.input.pop();
                proof {
                    if old(self)@.input.len() > 0 {
                        assert(self@.input =~= old(self)@.input.drop_last());
                    }
                }
                Effect::Continue
            },
            _ => Effect::Continue,
        }
    }

    /// One key while capturing text, as [`step_adding`] says.
    fn handle_adding(&mut self, store: &mut Store, key: Key) -> (eff: Effect)
        requires
            old(self)@.input_mode is Adding,
            model_inv(old(self)@, old(store)@),
            old(store).wf(),
        ensures
            final(store).wf(),
            model_inv(final(self)@, final(store)@),
            (StepModel { session: final(self)@, cats: final(store)@, effect: eff@ })
                == step_adding(old(self)@, old(store)@, key),
    {
        match key {
            Key::Enter => self.handle_adding_commit(store),
            Key::Esc | Key::Up => {
                self.input_mode = InputMode::Normal;
                self.input.clear();
                Effect::Continue
            },
            Key::Char(c) => {
                self.input.push(c);
                Effect::Continue
            },
            Key::Backspace => {
                self.input.pop();
                proof {
                    if old(self)@.input.len() > 0 {
                        assert(self@.input =~= old(self)@.input.drop_last());
                    }
                }
                Effect::Continue
            },
            _ => Effect::Continue,
        }
    }

    /// Committing the input buffer, as [`step_adding_commit`] says.
    fn handle_adding_commit(&mut self, store: &mut Store) -> (eff: Effect)
        requires
            old(self)@.input_mode is Adding,
            model_inv(old(self)@, old(store)@),
            old(store).wf(),
        ensures
            final(store).wf(),
            model_inv(final(self)@, final(store)@),
            (StepModel { session: final(self)@, cats: final(store)@, effect: eff@ })
                == step_adding_commit(old(self)@, old(store)@),
    {
        match self.mode {
            Mode::Category => {
                if self.input.len() > 0 {
                    let name = chars_to_string(&self.input);
                    if !store.has_category(&name) {
                        store.add_category(&name);
                        if self.selected_category.is_none() {
                            self.selected_category = Some(0);
                        }
                        self.input_mode = InputMode::Normal;
                        self.input.clear();
                        proof {
                            assert(final(store)@ =~~= step_adding_commit(
                                old(self)@,
                                old(store)@,
                            ).cats);
                        }
                        Effect::Persist
                    } else {
                        Effect::Continue
                    }
                } else {
                    Effect::Continue
                }
            },
            Mode::Command => {
                if self.input.len() > 0 {
                    match split_first_space(&self.input) {
                        Some((head, tail)) => {
                            let ci = match self.selected_category {
                                Some(i) => i,
                                None => {
                                    proof {
                                        assert(false);
                                    }
                                    0
                                },
                            };
                            let alias = chars_to_string(&head);
                            let text = chars_to_string(&tail);
                            let name = store.category_name(ci).clone();
                            proof {
                                assert forall|k: int| 0 <= k < ci implies store@[k].name
                                    != name@ by {}
                                lemma_cat_index_is(store@, name@, ci as int);
                            }
                            if !store.has_alias(&name, &alias) {
                                store.add_or_update_command(&name, &alias, &text);
                                self.input_mode = InputMode::Normal;
                                self.input.clear();
                                proof {
                                    assert(final(store)@ =~~= step_adding_commit(
                                        old(self)@,
                                        old(store)@,
                                    ).cats);
                                }
                                Effect::Persist
                            } else {
                                Effect::Continue
                            }
                        },
                        None => Effect::Continue,
                    }
                } else {
                    Effect::Continue
                }
            },
            Mode::Buttons => Effect::Continue,
        }
    }

    /// The input dispatcher: applies one keyboard event to the session and
    /// the store, exactly as [`spec_step`] says, and keeps both invariants.
    pub fn handle_key(&mut self, store: &mut Store, key: Key) -> (eff: Effect)
        requires
            model_inv(old(self)@, old(store)@),
            old(store).wf(),
        ensures
            final(store).wf(),
            model_inv(final(self)@, final(store)@),
            (StepModel { session: final(self)@, cats: final(store)@, effect: eff@ })
                == spec_step(old(self)@, old(store)@, key),
    {
        match self.input_mode {
            InputMode::Normal => match self.mode {
                Mode::Category => self.handle_category(store, key),
                Mode::Command => self.handle_command(store, key),
                Mode::Buttons => self.handle_buttons(store, key),
            },
            InputMode::Editing => self.handle_editing(store, key),
            InputMode::Adding => self.handle_adding(store, key),
        }
    }
}

/// Deleting the only remaining category leaves the store empty and nothing
/// selected: the command list is no longer reachable.
pub proof fn lemma_delete_last_category_clears_selection(
    s: SessionModel,
    cats: Seq<CategoryModel>,
)
    requires
        model_inv(s, cats),
        s.input_mode is Normal,
        s.mode is Category,
        cats.len() == 1,
    ensures
        spec_step(s, cats, Key::Char('d')).cats.len() == 0,
        spec_step(s, cats, Key::Char('d')).session.selected_category is None,
{
}

/// While no category exists, Right and Enter at the category list change
/// nothing: descent into the command list is blocked.
pub proof fn lemma_empty_store_blocks_descent(
    s: SessionModel,
    cats: Seq<CategoryModel>,
    key: Key,
)
    requires
        model_inv(s, cats),
        s.input_mode is Normal,
        s.mode is Category,
        cats.len() == 0,
        key is Right || key is Enter,
    ensures
        spec_step(s, cats, key) == stay(s, cats),
{
}

/// A command commit whose buffer holds no whitespace is dropped silently:
/// the store keeps its contents, no persist is owed, and text capture stays
/// open with the buffer as it was.
pub proof fn lemma_commit_without_whitespace_is_dropped(
    s: SessionModel,
    cats: Seq<CategoryModel>,
)
    requires
        model_inv(s, cats),
        s.input_mode is Adding,
        s.mode is Command,
        forall|i: int| 0 <= i < s.input.len() ==> !is_space_char(#[trigger] s.input[i]),
    ensures
        spec_step(s, cats, Key::Enter) == stay(s, cats),
{
    lemma_space_index(s.input);
}

} // verus!
