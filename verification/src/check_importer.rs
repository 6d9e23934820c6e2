//! The modules that the server knows, with what it knows of each.

use vstd::prelude::*;

use crate::rpc::ServerError;
use crate::text::same_text;
use crate::text_edit::{in_order, TextChanges, Version, VersionedChange};

verus! {

/// A module that has been compiled: what the compiler made of it, and where it came from.
pub struct Module<S> {
    pub source: S,
    pub uri: String,
}

/// What is known of a module that an editor may work on.
pub struct State {
    pub uri: String,
    pub version: Option<Version>,
    pub text_changes: TextChanges,
}

/// The mathematical form of a [`State`].
pub struct StateView {
    pub uri: Seq<char>,
    pub version: Option<Version>,
    pub waiting: Seq<VersionedChange>,
}

impl View for State {
    type V = StateView;

    open spec fn view(&self) -> StateView {
        StateView { uri: self.uri@, version: self.version, waiting: self.text_changes@ }
    }
}

/// A module that no editor has opened yet.
pub open spec fn fresh_state(uri: Seq<char>, version: Option<Version>) -> StateView {
    StateView { uri, version, waiting: Seq::empty() }
}

impl State {
    /// The edits that wait are in order.
    pub open spec fn well_formed(&self) -> bool {
        in_order(self.text_changes@)
    }

    /// A module that nothing but its uri is known of.
    pub fn empty(uri: String) -> (state: State)
        ensures
            state@ == fresh_state(uri@, None),
            state.well_formed(),
    {
        State { uri, version: None, text_changes: TextChanges::new() }
    }
}

/// The modules by their names, each name once.
pub struct CheckImporter {
    modules: Vec<(String, State)>,
}

/// The place of the module with a name, or the number of modules.
pub open spec fn module_index(modules: Seq<(String, State)>, name: Seq<char>) -> int
    decreases modules.len(),
{
    if modules.len() == 0 || modules[0].0@ == name {
        0
    } else {
        1 + module_index(modules.drop_first(), name)
    }
}

pub proof fn lemma_module_index(modules: Seq<(String, State)>, name: Seq<char>)
    ensures
        0 <= module_index(modules, name) <= modules.len(),
        module_index(modules, name) < modules.len() ==> modules[module_index(modules, name)].0@
            == name,
        forall|i: int|
            0 <= i < module_index(modules, name) ==> (#[trigger] modules[i]).0@ != name,
    decreases modules.len(),
{
    if modules.len() > 0 && modules[0].0@ != name {
        let rest = modules.drop_first();
        lemma_module_index(rest, name);
        assert forall|i: int| 0 <= i < module_index(modules, name) implies (
        #[trigger] modules[i]).0@ != name by {
            if i > 0 {
                assert(modules[i] == rest[i - 1]);
            }
        }
    }
}

pub open spec fn is_known(modules: Seq<(String, State)>, name: Seq<char>) -> bool {
    module_index(modules, name) < modules.len()
}

/// What a list of modules says of each name.
pub open spec fn module_map(modules: Seq<(String, State)>) -> Map<Seq<char>, StateView> {
    Map::new(
        |name: Seq<char>| is_known(modules, name),
        |name: Seq<char>| modules[module_index(modules, name)].1@,
    )
}

/// No name occurs twice.
pub open spec fn distinct_names(modules: Seq<(String, State)>) -> bool {
    forall|i: int, j: int|
        0 <= i < j < modules.len() ==> (#[trigger] modules[i]).0@ != (#[trigger] modules[j]).0@
}

/// A list of modules with `state` for the module `name`, in its place or at the end.
pub open spec fn with_module(
    modules: Seq<(String, State)>,
    name: String,
    state: State,
) -> Seq<(String, State)> {
    let i = module_index(modules, name@);
    if i < modules.len() {
        modules.update(i, (modules[i].0, state))
    } else {
        modules.push((name, state))
    }
}

proof fn lemma_with_module(modules: Seq<(String, State)>, name: String, state: State)
    requires
        distinct_names(modules),
    ensures
        distinct_names(with_module(modules, name, state)),
        module_map(with_module(modules, name, state)) == module_map(modules).insert(name@, state@),
{
    let after = with_module(modules, name, state);
    let i = module_index(modules, name@);
    lemma_module_index(modules, name@);
    assert forall|other: Seq<char>| #![trigger module_index(after, other)]
        is_known(after, other) == (is_known(modules, other) || other == name@) && (is_known(
            after,
            other,
        ) ==> after[module_index(after, other)].1@ == (if other == name@ {
            state@
        } else {
            modules[module_index(modules, other)].1@
        })) by {
        lemma_module_index(modules, other);
        lemma_module_index(after, other);
        let found = module_index(after, other);
        let earlier = module_index(modules, other);
        if other == name@ {
            assert(after[i].0@ == other);
            if found < i {
                assert(modules[found].0@ != name@);
            }
        } else {
            if found < after.len() && found < modules.len() {
                assert(modules[found].0@ == other);
                if earlier < found {
                    assert(after[earlier].0@ == modules[earlier].0@);
                }
            }
            if earlier < modules.len() {
                assert(after[earlier].0@ == other);
                if found < earlier {
                    assert(modules[found].0@ == after[found].0@);
                }
            }
        }
    }
    let before_map = module_map(modules);
    let after_map = module_map(after);
    assert forall|other: Seq<char>|
        after_map.dom().contains(other) == #[trigger] before_map.insert(
            name@,
            state@,
        ).dom().contains(other) by {
        let found = module_index(after, other);
    }
    assert forall|other: Seq<char>| #[trigger] after_map.dom().contains(other) implies after_map[other]
        == before_map.insert(name@, state@)[other] by {
        let found = module_index(after, other);
    }
    assert(after_map =~= before_map.insert(name@, state@));
}

impl View for CheckImporter {
    type V = Map<Seq<char>, StateView>;

    closed spec fn view(&self) -> Map<Seq<char>, StateView> {
        module_map(self.modules@)
    }
}

impl CheckImporter {
    /// No name occurs twice, and the edits that wait for a module are in order.
    pub closed spec fn well_formed(&self) -> bool {
        &&& distinct_names(self.modules@)
        &&& forall|i: int|
            0 <= i < self.modules@.len() ==> (#[trigger] self.modules@[i]).1.well_formed()
    }

    /// The names of the modules, in the order in which they became known.
    pub closed spec fn names(&self) -> Seq<Seq<char>> {
        self.modules@.map_values(|module: (String, State)| module.0@)
    }

    /// The names after one more module became known.
    pub open spec fn names_with(&self, name: Seq<char>) -> Seq<Seq<char>> {
        if self@.dom().contains(name) {
            self.names()
        } else {
            self.names().push(name)
        }
    }

    /// Law: the names that are listed are those of the modules that are known, each of them once,
    /// and the edits that wait for each are in order.
    pub proof fn law_names_are_the_known_modules(&self)
        requires
            self.well_formed(),
        ensures
            self.names().no_duplicates(),
            forall|name: Seq<char>| #[trigger]
                self@.dom().contains(name) <==> self.names().contains(name),
            forall|name: Seq<char>| #[trigger]
                self@.dom().contains(name) ==> in_order(self@[name].waiting),
    {
        let names = self.names();
        assert forall|name: Seq<char>| #[trigger]
            self@.dom().contains(name) <==> names.contains(name) by {
            lemma_module_index(self.modules@, name);
            if names.contains(name) {
                let i = choose|i: int| 0 <= i < names.len() && names[i] == name;
                assert(self.modules@[i].0@ == name);
                if module_index(self.modules@, name) == self.modules@.len() {
                    assert(self.modules@[i].0@ != name);
                }
            }
            if self@.dom().contains(name) {
                assert(names[module_index(self.modules@, name)] == name);
            }
        }
        assert forall|name: Seq<char>| #[trigger] self@.dom().contains(name) implies in_order(
            self@[name].waiting,
        ) by {
            lemma_module_index(self.modules@, name);
        }
    }

    pub fn new() -> (importer: CheckImporter)
        ensures
            importer.well_formed(),
            importer@ == Map::<Seq<char>, StateView>::empty(),
            importer.names() == Seq::<Seq<char>>::empty(),
    {
        let importer = CheckImporter { modules: Vec::new() };
        assert(importer@ =~= Map::<Seq<char>, StateView>::empty());
        importer
    }

    fn find(&self, name: &str) -> (index: usize)
        ensures
            index == module_index(self.modules@, name@),
    {
        let mut i: usize = 0;
        assert(self.modules@.skip(0) =~= self.modules@);
        while i < self.modules.len()
            invariant
                i <= self.modules@.len(),
                module_index(self.modules@, name@) == i + module_index(
                    self.modules@.skip(i as int),
                    name@,
                ),
            decreases self.modules@.len() - i,
        {
            let ghost rest = self.modules@.skip(i as int);
            assert(rest[0] == self.modules@[i as int]);
            assert(rest.drop_first() =~= self.modules@.skip(i + 1));
            if same_text(self.modules[i].0.as_str(), name) {
                return i;
            }
            i += 1;
        }
        i
    }

    /// What is known of a module.
    pub fn get(&self, name: &str) -> (state: Option<&State>)
        ensures
            match state {
                Some(state) => self@.dom().contains(name@) && self@[name@] == state@,
                None => !self@.dom().contains(name@),
            },
            self.well_formed() && state is Some ==> state.unwrap().well_formed(),
    {
        let i = self.find(name);
        proof {
            lemma_module_index(self.modules@, name@);
        }
        if i < self.modules.len() {
            Some(&self.modules[i].1)
        } else {
            None
        }
    }

    /// What is known of a module, to be changed. A module that was not known yet is, from now on,
    /// with nothing known but its uri.
    pub fn entry(&mut self, name: String, uri: String) -> (state: &mut State)
        requires
            old(self).well_formed(),
        ensures
            state.well_formed(),
            state@ == (if old(self)@.dom().contains(name@) {
                old(self)@[name@]
            } else {
                fresh_state(uri@, None)
            }),
            final(state).well_formed() ==> final(self).well_formed(),
            final(self)@ == old(self)@.insert(name@, final(state)@),
            final(self).names() == old(self).names_with(name@),
    {
        let i = self.find(name.as_str());
        let ghost before = self.modules@;
        let ghost name_ = name;
        proof {
            lemma_module_index(before, name@);
        }
        if i == self.modules.len() {
            self.modules.push((name, State::empty(uri)));
        }
        let state = &mut self.modules[i].1;
        proof {
            lemma_with_module(before, name_, *final(state));
            assert(after_borrow(self.modules)@ =~= with_module(before, name_, *final(state)));
        }
        state
    }

    /// Makes `state` what is known of a module.
    pub fn insert(&mut self, name: String, state: State)
        requires
            old(self).well_formed(),
            state.well_formed(),
        ensures
            final(self).well_formed(),
            final(self)@ == old(self)@.insert(name@, state@),
            final(self).names() == old(self).names_with(name@),
    {
        let i = self.find(name.as_str());
        let ghost before = self.modules@;
        proof {
            lemma_module_index(before, name@);
            lemma_with_module(before, name, state);
        }
        if i < self.modules.len() {
            let known = self.modules[i].0.clone();
            self.modules.set(i, (known, state));
            assert(self.names() =~= old(self).names());
        } else {
            self.modules.push((name, state));
            assert(self.names() =~= old(self).names().push(name@));
        }
        assert(self.modules@ =~= with_module(before, name, state));
    }

    /// A module that the compiler has just loaded for an import, at its uri.
    pub fn import(&mut self, name: String, uri: String)
        requires
            old(self).well_formed(),
        ensures
            final(self).well_formed(),
            final(self)@ == old(self)@.insert(name@, fresh_state(uri@, None)),
            final(self).names() == old(self).names_with(name@),
    {
        self.insert(name, State::empty(uri));
    }

    /// Takes note that the module `name` has been checked as the document at `uri`, in the given
    /// version if it is known. Edits that wait for the module go on waiting.
    pub fn checked(&mut self, name: String, uri: String, version: Option<Version>)
        requires
            old(self).well_formed(),
        ensures
            final(self).well_formed(),
            final(self)@ == old(self)@.insert(
                name@,
                checked_state(old(self)@, name@, uri@, version),
            ),
            final(self).names() == old(self).names_with(name@),
    {
        let state = self.entry(name, uri.clone());
        if version.is_some() {
            state.version = version;
        }
        state.uri = uri;
    }

    /// A module that has been loaded, if it is known.
    pub fn module<S>(&self, name: &str, loaded: Option<S>) -> (module: Option<Module<S>>)
        ensures
            match module {
                Some(module) => {
                    &&& loaded == Some(module.source)
                    &&& self@.dom().contains(name@)
                    &&& self@[name@].uri == module.uri@
                },
                None => loaded is None || !self@.dom().contains(name@),
            },
    {
        let source = loaded?;
        let state = self.get(name)?;
        Some(Module { source, uri: state.uri.clone() })
    }

    /// The modules that are known, with their uris.
    pub fn uris(&self) -> (uris: Vec<(String, String)>)
        requires
            self.well_formed(),
        ensures
            uris@.len() == self.names().len(),
            forall|i: int|
                0 <= i < uris@.len() ==> (#[trigger] uris@[i]).0@ == self.names()[i] && uris@[i].1@
                    == self@[self.names()[i]].uri,
    {
        let mut uris: Vec<(String, String)> = Vec::new();
        let mut i: usize = 0;
        while i < self.modules.len()
            invariant
                self.well_formed(),
                i <= self.modules@.len(),
                uris@.len() == i,
                forall|j: int|
                    0 <= j < i ==> (#[trigger] uris@[j]).0@ == self.names()[j] && uris@[j].1@
                        == self@[self.names()[j]].uri,
            decreases self.modules@.len() - i,
        {
            let name = self.modules[i].0.clone();
            let uri = self.modules[i].1.uri.clone();
            proof {
                lemma_module_index(self.modules@, name@);
                let found = module_index(self.modules@, name@);
                if found < i {
                    assert(self.modules@[found].0@ != self.modules@[i as int].0@);
                }
                assert(found == i);
            }
            uris.push((name, uri));
            i += 1;
        }
        uris
    }

    /// The module that was asked for, or an error that says which modules are known.
    pub fn require<S>(&self, name: &str, module: Option<Module<S>>) -> (result: Result<
        Module<S>,
        ServerError<()>,
    >)
        requires
            self.well_formed(),
        ensures
            match result {
                Ok(found) => module == Some(found),
                Err(error) => {
                    &&& module is None
                    &&& error.message@ == undefined_message(name@, self.names())
                    &&& error.data is None
                },
            },
    {
        match module {
            Some(module) => Ok(module),
            None => {
                let uris = self.uris();
                let mut names: Vec<String> = Vec::new();
                let mut i: usize = 0;
                while i < uris.len()
                    invariant
                        i <= uris@.len(),
                        names@.len() == i,
                        forall|j: int|
                            0 <= j < i ==> (#[trigger] names@[j])@ == uris@[j].0@,
                    decreases uris@.len() - i,
                {
                    names.push(uris[i].0.clone());
                    i += 1;
                }
                let mut message = "Module `".to_owned();
                message.append(name);
                message.append("` is not defined\n");
                message.append(debug_names(&names).as_str());
                assert(texts(names@) =~= self.names());
                Err(ServerError::from(message))
            },
        }
    }
}

/// What is known of a module once it has been checked.
pub open spec fn checked_state(
    known: Map<Seq<char>, StateView>,
    name: Seq<char>,
    uri: Seq<char>,
    version: Option<Version>,
) -> StateView {
    if known.dom().contains(name) {
        StateView {
            uri,
            version: if version is Some {
                version
            } else {
                known[name].version
            },
            waiting: known[name].waiting,
        }
    } else {
        fresh_state(uri, version)
    }
}

/// The texts of several strings.
pub open spec fn texts(strings: Seq<String>) -> Seq<Seq<char>> {
    strings.map_values(|string: String| string@)
}

/// Whether a text can be quoted as it is: it holds printable ASCII characters alone, and neither
/// quotes nor backslashes.
pub open spec fn is_plain_text(text: Seq<char>) -> bool {
    forall|i: int|
        0 <= i < text.len() ==> ' ' <= #[trigger] text[i] && text[i] <= '~' && text[i] != '"'
            && text[i] != '\\'
}

/// Several texts in quotes, with commas between them.
pub open spec fn quoted(texts: Seq<Seq<char>>) -> Seq<char>
    decreases texts.len(),
{
    if texts.len() == 0 {
        Seq::empty()
    } else if texts.len() == 1 {
        "\""@ + texts[0] + "\""@
    } else {
        quoted(texts.drop_last()) + ", \""@ + texts.last() + "\""@
    }
}

/// How a list of texts is printed of which some cannot be quoted as they are: what
/// `format!("{:?}", ..)` makes of it.
pub uninterp spec fn odd_debug_list(texts: Seq<Seq<char>>) -> Seq<char>;

/// How a list of texts is printed with all of them quoted.
pub open spec fn debug_list(texts: Seq<Seq<char>>) -> Seq<char> {
    if forall|i: int| 0 <= i < texts.len() ==> is_plain_text(#[trigger] texts[i]) {
        "["@ + quoted(texts) + "]"@
    } else {
        odd_debug_list(texts)
    }
}

/// Prints a list of names with `format!("{:?}", ..)`.
///
/// The names are quoted, with commas between them, and the whole is put into brackets. Where some
/// names cannot be quoted as they are, what is printed depends on the names alone.
#[verifier::external_body]
fn debug_names(names: &Vec<String>) -> (text: String)
    ensures
        text@ == (if forall|i: int|
            0 <= i < names@.len() ==> is_plain_text(#[trigger] texts(names@)[i]) {
            "["@ + quoted(texts(names@)) + "]"@
        } else {
            odd_debug_list(texts(names@))
        }),
{
    format!("{:?}", names)
}

/// What is said of a module that is not known.
pub open spec fn undefined_message(name: Seq<char>, known: Seq<Seq<char>>) -> Seq<char> {
    "Module `"@ + name + "` is not defined\n"@ + debug_list(known)
}

/// The modules among several that could be loaded.
pub open spec fn loaded<S>(candidates: Seq<(String, Option<S>)>) -> Seq<Module<S>>
    decreases candidates.len(),
{
    if candidates.len() == 0 {
        Seq::empty()
    } else {
        let front = loaded(candidates.drop_last());
        match candidates.last().1 {
            Some(source) => front.push(Module { source, uri: candidates.last().0 }),
            None => front,
        }
    }
}

/// The modules among several that could be loaded, each with its uri, in their order.
pub fn loaded_modules<S>(candidates: Vec<(String, Option<S>)>) -> (modules: Vec<Module<S>>)
    ensures
        modules@ == loaded(candidates@),
{
    let mut modules: Vec<Module<S>> = Vec::new();
    assert(candidates@.take(0) =~= Seq::<(String, Option<S>)>::empty());
    for candidate in items: candidates.into_iter()
        invariant
            items.seq() == candidates@,
            modules@ == loaded(candidates@.take(items.index())),
    {
        assert(candidates@.take(items.index() + 1).drop_last() =~= candidates@.take(
            items.index(),
        ));
        let (uri, source) = candidate;
        if let Some(source) = source {
            modules.push(Module { source, uri });
        }
    }
    assert(candidates@.take(candidates@.len() as int) =~= candidates@);
    modules
}

} // verus!
