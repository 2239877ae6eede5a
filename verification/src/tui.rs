//! The browser itself: the result store, the navigation state and the flag
//! that ends the session. Keys go in, frames come out; reading keys and logs
//! and drawing frames is left to the caller.

use crate::model::{leaves_of, lemma_store_entries, store_of, well_formed, Results};
use crate::nav::{after_key, fits, initial, is_quit, selected_patches, Key, Navigation};
use crate::order::lemma_sorted_names;
use crate::screen::{log_file, log_path, render, screen_of, selected_run, text_of, Screen};
use crate::store::ResultStore;
use crate::test::Test;
use vstd::prelude::*;

verus! {

/// A browsing session over one result tree.
pub struct App {
    results: ResultStore,
    should_exit: bool,
    nav: Navigation,
    path: String,
}

/// What a session consists of.
pub struct Session {
    pub results: Results,
    pub should_exit: bool,
    pub nav: Navigation,
    pub path: Seq<char>,
}

/// The session after `key`: `q` and Escape end it, any other key moves the
/// navigation state within the store.
pub open spec fn session_after(s: Session, key: Key) -> Session {
    if is_quit(key) {
        Session { should_exit: true, ..s }
    } else {
        Session {
            nav: after_key(s.nav, key, s.results.dom().len(), selected_patches(s.nav, s.results)),
            ..s
        }
    }
}

impl View for App {
    type V = Session;

    closed spec fn view(&self) -> Session {
        Session {
            results: self.results@,
            should_exit: self.should_exit,
            nav: self.nav,
            path: self.path@,
        }
    }
}

impl App {
    #[verifier::type_invariant]
    spec fn sound(self) -> bool {
        well_formed(self.results@) && fits(self.nav, self.results@)
    }

    /// A session over the leaves `res` of the result tree at path `p`:
    /// nothing selected, nothing scrolled.
    pub fn from_results(res: &mut Vec<Test>, p: &String) -> (app: App)
        ensures
            *final(res) == *old(res),
            app@ == (Session {
                results: store_of(leaves_of(old(res)@)),
                should_exit: false,
                nav: initial(),
                path: p@,
            }),
    {
        let results = ResultStore::build(res);
        proof {
            lemma_store_entries(leaves_of(res@));
        }
        App { results, should_exit: false, nav: Navigation::new(), path: p.clone() }
    }

    /// Takes one key press. The scroll offset counts in sixteen bits, so
    /// Scroll Forward needs room to count.
    pub fn handle_key(&mut self, key: Key)
        requires
            key == Key::Enter ==> old(self)@.nav.scroll_offset < u16::MAX,
        ensures
            final(self)@ == session_after(old(self)@, key),
            fits(final(self)@.nav, final(self)@.results),
    {
        proof {
            use_type_invariant(&*self);
            lemma_sorted_names(self.results@.dom());
        }
        match key {
            Key::Char('q') | Key::Esc => {
                self.should_exit = true;
            },
            _ => {
                let tests = self.results.test_count();
                let patches: usize = match (key, self.nav.selected_test_index) {
                    (Key::Right, Some(t)) => match self.results.test_name(t) {
                        Some(name) => self.results.total_count(name),
                        None => 0,
                    },
                    _ => 0,
                };
                self.nav = self.nav.step(key, tests, patches);
            },
        }
    }

    /// Whether the session has been asked to end.
    pub fn should_exit(&self) -> (flag: bool)
        ensures
            flag == self@.should_exit,
    {
        self.should_exit
    }

    /// The navigation state, which always points into the store.
    pub fn navigation(&self) -> (nav: Navigation)
        ensures
            nav == self@.nav,
            fits(nav, self@.results),
    {
        proof {
            use_type_invariant(self);
        }
        self.nav
    }

    /// The result store.
    pub fn results(&self) -> (store: &ResultStore)
        ensures
            store@ == self@.results,
            well_formed(store@),
    {
        proof {
            use_type_invariant(self);
        }
        &self.results
    }

    /// The root path of the result tree.
    pub fn path(&self) -> (path: &str)
        ensures
            path@ == self@.path,
    {
        self.path.as_str()
    }

    /// The path of the log that the next frame shows, if a run is selected.
    pub fn log_file(&self) -> (file: Option<String>)
        ensures
            match file {
                Some(f) => selected_run(self@.results, self@.nav) matches Some((test, patch))
                    && f@ == log_file(self@.path, patch, test),
                None => selected_run(self@.results, self@.nav) is None,
            },
    {
        log_path(&self.results, &self.nav, self.path.as_str())
    }

    /// The frame for the current state, for the text of the selected log
    /// (`None` where the log cannot be read or no run is selected).
    pub fn render(&self, log: Option<&str>) -> (screen: Screen)
        ensures
            screen@ == screen_of(self@.results, self@.nav, self@.path, text_of(log)),
    {
        render(&self.results, &self.nav, self.path.as_str(), log)
    }
}

} // verus!
