//! The session of the Pokedex: where the map stands, what is listed, what
//! was caught, and which commands there are.
//!
//! Nothing here reads the terminal or the network. A command asks the
//! session which URL it needs, fetches the body itself (through the cache),
//! and hands back what the body held.

use crate::chance::{beats, is_caught, roll, CATCH_ROLLS};
use vstd::prelude::*;

verus! {

/// How long a response body stays in the cache: thirty seconds, in
/// nanoseconds.
pub const CACHE_TTL: u128 = 30_000_000_000;

/// One area of the map, as the location-area listing names it.
#[derive(Debug)]
pub struct LocationArea {
    name: String,
    url: String,
}

impl LocationArea {
    /// The area called `name`, whose details are found at `url`.
    pub fn new(name: String, url: String) -> (area: LocationArea)
        ensures
            area.name() == name,
            area.url() == url,
    {
        LocationArea { name, url }
    }

    /// The area's name.
    pub closed spec fn name(&self) -> String {
        self.name
    }

    /// The address of the area's details.
    pub closed spec fn url(&self) -> String {
        self.url
    }

    /// The area's name.
    pub fn get_name(&self) -> (name: &String)
        ensures
            *name == self.name(),
    {
        &self.name
    }

    /// The address of the area's details.
    pub fn get_url(&self) -> (url: &String)
        ensures
            *url == self.url(),
    {
        &self.url
    }
}

/// One page of the location-area listing.
#[derive(Debug)]
pub struct LocationAreas {
    pub count: usize,
    pub next: String,
    pub previous: Option<String>,
    pub results: Vec<LocationArea>,
}

/// One base stat of a Pokemon.
#[derive(Debug)]
pub struct Stat {
    pub name: String,
    pub base_stat: u32,
}

/// What the Pokedex keeps of a Pokemon.
#[derive(Debug)]
pub struct PokemonDetails {
    pub name: String,
    pub base_experience: u32,
    pub height: u32,
    pub weight: u32,
    pub stats: Vec<Stat>,
    pub types: Vec<String>,
}

/// Which listing is on the screen, and so which menu can be opened.
#[derive(Clone, Copy, Debug, PartialEq, Eq, Structural)]
pub enum Mode {
    LocationListing,
    PokemonListing,
}

/// What a command does.
#[derive(Clone, Copy, Debug, PartialEq, Eq, Structural)]
pub enum Action {
    Exit,
    Help,
    MapForward,
    MapBack,
    Explore,
    Catch,
    Pokedex,
    Inspect,
}

/// A command of the prompt: its name, a line of help, and what it does.
#[derive(Debug)]
pub struct CliCommand {
    pub name: String,
    pub description: String,
    pub action: Action,
}

/// The commands in the order of the help text: name, help line, action.
pub open spec fn command_table() -> Seq<(Seq<char>, Seq<char>, Action)> {
    seq![
        ("exit"@, "Exit the Pokedex"@, Action::Exit),
        ("help"@, "Displays a help message"@, Action::Help),
        ("map"@, "Display the next 20 locations in the Pokemon world"@, Action::MapForward),
        ("mapb"@, "Display the previous 20 locations in the Pokemon world"@, Action::MapBack),
        ("explore"@, "List the Pokemon found in this area"@, Action::Explore),
        ("catch"@, "Attempt to catch a Pokemon"@, Action::Catch),
        ("pokedex"@, "List the Pokemon you've caught"@, Action::Pokedex),
        ("inspect"@, "Get details of a Pokemon you've caught"@, Action::Inspect),
    ]
}

/// Whether `commands` is the table, entry by entry.
pub open spec fn is_command_table(commands: Seq<CliCommand>) -> bool {
    &&& commands.len() == command_table().len()
    &&& forall|i: int|
        0 <= i < commands.len() ==> (#[trigger] commands[i]).name@ == command_table()[i].0
            && commands[i].description@ == command_table()[i].1 && commands[i].action
            == command_table()[i].2
}

/// The place of the first command called `name`, if there is one.
pub open spec fn command_named(commands: Seq<CliCommand>, name: Seq<char>) -> Option<int> {
    if exists|i: int| 0 <= i < commands.len() && (#[trigger] commands[i]).name@ == name {
        Some(first_named(commands, name, 0))
    } else {
        None
    }
}

/// The least place from `from` on whose command is called `name`, or the
/// length of `commands`.
pub open spec fn first_named(commands: Seq<CliCommand>, name: Seq<char>, from: int) -> int
    decreases commands.len() - from,
{
    if 0 <= from < commands.len() {
        if commands[from].name@ == name {
            from
        } else {
            first_named(commands, name, from + 1)
        }
    } else {
        commands.len() as int
    }
}

/// Where a line of input leads.
#[derive(Clone, Copy, Debug, PartialEq, Eq, Structural)]
pub enum Route {
    /// The line held no word.
    Nothing,
    /// `e`: open the menu of the listed areas.
    ExploreMode,
    /// `c`: open the menu of the listed Pokemon.
    CatchMode,
    /// The command at this place of the registry, with the words after the
    /// first as its parameters.
    Run(usize),
    /// The first word names no command.
    Unknown,
}

/// Where the words `args` lead, given the registered commands.
pub open spec fn routed(commands: Seq<CliCommand>, args: Seq<String>) -> Route {
    if args.len() == 0 {
        Route::Nothing
    } else if args[0]@ == "e"@ {
        Route::ExploreMode
    } else if args[0]@ == "c"@ {
        Route::CatchMode
    } else {
        match command_named(commands, args[0]@) {
            Some(i) => Route::Run(i as usize),
            None => Route::Unknown,
        }
    }
}

/// A throw of a Pokeball: the roll, and whether it caught the target.
#[derive(Debug)]
pub struct Throw {
    pub roll: u32,
    pub caught: bool,
}

/// The state of a session as plain values.
pub struct ConfigView {
    pub next: Option<Seq<char>>,
    pub previous: Option<Seq<char>>,
    pub current: Option<Seq<char>>,
    pub mode: Option<Mode>,
    pub locations: Seq<LocationArea>,
    pub pokemon: Seq<String>,
    pub pokedex: Seq<PokemonDetails>,
}

/// The text of an optional string.
pub open spec fn text_of(s: Option<String>) -> Option<Seq<char>> {
    match s {
        Some(s) => Some(s@),
        None => None,
    }
}

/// The address of the first page of the map.
pub open spec fn first_page() -> Seq<char> {
    "https://pokeapi.co/api/v2/location-area/"@
}

/// The address under which every Pokemon is found by its name.
pub open spec fn pokemon_page() -> Seq<char> {
    "https://pokeapi.co/api/v2/pokemon/"@
}

/// Whether the Pokedex holds a Pokemon called `name`.
pub open spec fn has_caught(pokedex: Seq<PokemonDetails>, name: Seq<char>) -> bool {
    exists|i: int| 0 <= i < pokedex.len() && (#[trigger] pokedex[i]).name@ == name
}

/// The session after a page of the map, fetched from `url`, was shown.
pub open spec fn after_page(s: ConfigView, url: Seq<char>, page: LocationAreas) -> ConfigView {
    ConfigView {
        current: Some(url),
        next: Some(page.next@),
        previous: text_of(page.previous),
        mode: Some(Mode::LocationListing),
        locations: page.results@,
        ..s
    }
}

/// The session after the Pokemon of an area were listed.
pub open spec fn after_area(s: ConfigView, pokemon: Seq<String>) -> ConfigView {
    ConfigView { mode: Some(Mode::PokemonListing), pokemon, ..s }
}

/// The session after a throw at `target` with this roll: a caught Pokemon
/// enters the Pokedex unless one of its name is in it already.
pub open spec fn after_throw(s: ConfigView, target: PokemonDetails, roll: u32) -> ConfigView {
    if beats(roll, target.base_experience) && !has_caught(s.pokedex, target.name@) {
        ConfigView { pokedex: s.pokedex.push(target), ..s }
    } else {
        s
    }
}

spec fn names_differ(pokedex: Seq<PokemonDetails>) -> bool {
    forall|i: int, j: int|
        0 <= i < j < pokedex.len() ==> (#[trigger] pokedex[i]).name@ != (#[trigger] pokedex[j]).name@
}

/// The session: the pages of the map around the current one, the listing on
/// the screen, the Pokedex, and the registry of commands.
pub struct Config {
    next: Option<String>,
    previous: Option<String>,
    current: Option<String>,
    command_registry: Vec<CliCommand>,
    pokedex: Vec<PokemonDetails>,
    mode: Option<Mode>,
    locations: Vec<LocationArea>,
    pokemon: Vec<String>,
}

impl View for Config {
    type V = ConfigView;

    closed spec fn view(&self) -> ConfigView {
        ConfigView {
            next: text_of(self.next),
            previous: text_of(self.previous),
            current: text_of(self.current),
            mode: self.mode,
            locations: self.locations@,
            pokemon: self.pokemon@,
            pokedex: self.pokedex@,
        }
    }
}

fn command(name: &str, description: &str, action: Action) -> (c: CliCommand)
    ensures
        c.name@ == name@,
        c.description@ == description@,
        c.action == action,
{
    CliCommand { name: name.to_owned(), description: description.to_owned(), action }
}

impl Config {
    #[verifier::type_invariant]
    spec fn well_formed(self) -> bool {
        &&& names_differ(self.pokedex@)
        &&& is_command_table(self.command_registry@)
    }

    /// The registered commands.
    pub closed spec fn commands(&self) -> Seq<CliCommand> {
        self.command_registry@
    }

    /// A fresh session: no page shown, nothing listed, nothing caught.
    pub fn new() -> (config: Config)
        ensures
            config@ == (ConfigView {
                next: None,
                previous: None,
                current: None,
                mode: None,
                locations: Seq::empty(),
                pokemon: Seq::empty(),
                pokedex: Seq::empty(),
            }),
            is_command_table(config.commands()),
    {
        Config {
            next: None,
            previous: None,
            current: None,
            command_registry: Config::command_registry(),
            pokedex: Vec::new(),
            mode: None,
            locations: Vec::new(),
            pokemon: Vec::new(),
        }
    }

    /// The commands, in the order of the help text.
    pub fn get_commands(&self) -> (commands: &Vec<CliCommand>)
        ensures
            commands@ == self.commands(),
            is_command_table(commands@),
    {
        proof {
            use_type_invariant(self);
        }
        &self.command_registry
    }

    /// Builds the registry of commands.
    pub fn command_registry() -> (registry: Vec<CliCommand>)
        ensures
            is_command_table(registry@),
    {
        let mut registry: Vec<CliCommand> = Vec::new();
        registry.push(command("exit", "Exit the Pokedex", Action::Exit));
        registry.push(command("help", "Displays a help message", Action::Help));
        registry.push(
            command("map", "Display the next 20 locations in the Pokemon world", Action::MapForward),
        );
        registry.push(
            command("mapb", "Display the previous 20 locations in the Pokemon world", Action::MapBack),
        );
        registry.push(command("explore", "List the Pokemon found in this area", Action::Explore));
        registry.push(command("catch", "Attempt to catch a Pokemon", Action::Catch));
        registry.push(command("pokedex", "List the Pokemon you've caught", Action::Pokedex));
        registry.push(
            command("inspect", "Get details of a Pokemon you've caught", Action::Inspect),
        );
        registry
    }

    /// The place in the registry of the command called `name`.
    pub fn find_command(&self, name: &str) -> (found: Option<usize>)
        ensures
            found matches Some(i) ==> command_named(self.commands(), name@) == Some(i as int) && i
                < self.commands().len() && self.commands()[i as int].name@ == name@,
            found is None ==> command_named(self.commands(), name@) is None,
    {
        let wanted = name.to_owned();
        let mut i: usize = 0;
        while i < self.command_registry.len()
            invariant
                i <= self.command_registry@.len(),
                wanted@ == name@,
                forall|j: int| 0 <= j < i ==> (#[trigger] self.command_registry@[j]).name@ != name@,
                first_named(self.command_registry@, name@, 0) == first_named(
                    self.command_registry@,
                    name@,
                    i as int,
                ),
            decreases self.command_registry@.len() - i,
        {
            if self.command_registry[i].name == wanted {
                return Some(i);
            }
            i += 1;
        }
        None
    }

    /// Where a line of input leads: `e` and `c` open the menus, any other
    /// first word is looked up in the registry.
    pub fn route(&self, args: &Vec<String>) -> (route: Route)
        ensures
            route == routed(self.commands(), args@),
            route matches Route::Run(i) ==> i < self.commands().len(),
    {
        if args.len() == 0 {
            return Route::Nothing;
        }
        if args[0] == "e".to_owned() {
            return Route::ExploreMode;
        }
        if args[0] == "c".to_owned() {
            return Route::CatchMode;
        }
        match self.find_command(args[0].as_str()) {
            Some(i) => Route::Run(i),
            None => Route::Unknown,
        }
    }

    /// The parameters of a command line: its words but the first.
    pub fn params_of(args: &Vec<String>) -> (params: Vec<String>)
        ensures
            params@ == if args@.len() == 0 {
                Seq::<String>::empty()
            } else {
                args@.skip(1)
            },
    {
        let mut params: Vec<String> = Vec::new();
        let mut i: usize = 1;
        while i < args.len()
            invariant
                1 <= i,
                i <= args@.len() || args@.len() == 0,
                params@.len() == if args@.len() == 0 { 0 } else { i - 1 },
                forall|j: int| 0 <= j < params@.len() ==> params@[j] == args@[j + 1],
            decreases args@.len() - i,
        {
            params.push(args[i].clone());
            i += 1;
        }
        assert(args@.len() > 0 ==> params@ =~= args@.skip(1));
        params
    }

    /// Which listing is on the screen.
    pub fn get_mode(&self) -> (mode: Option<Mode>)
        ensures
            mode == self@.mode,
    {
        self.mode
    }

    /// The areas of the page of the map that was shown last.
    pub fn get_current_locations(&self) -> (locations: &Vec<LocationArea>)
        ensures
            locations@ == self@.locations,
    {
        &self.locations
    }

    /// The Pokemon of the area that was explored last.
    pub fn get_current_pokemon(&self) -> (pokemon: &Vec<String>)
        ensures
            pokemon@ == self@.pokemon,
    {
        &self.pokemon
    }

    /// Everything caught so far, in the order of the catches.
    pub fn get_pokedex(&self) -> (pokedex: &Vec<PokemonDetails>)
        ensures
            pokedex@ == self@.pokedex,
    {
        &self.pokedex
    }

    /// The address of the page that `map` shows: the page after the current
    /// one, or the first page where none was shown yet. The session
    /// remembers it as the next page.
    pub fn map_url(&mut self) -> (url: String)
        ensures
            url@ == match old(self)@.next {
                Some(next) => next,
                None => first_page(),
            },
            final(self)@ == (ConfigView { next: Some(url@), ..old(self)@ }),
            final(self).commands() == old(self).commands(),
    {
        proof {
            use_type_invariant(&*self);
        }
        let url = match &self.next {
            Some(next) => next.clone(),
            None => "https://pokeapi.co/api/v2/location-area/".to_owned(),
        };
        self.next = Some(url.clone());
        url
    }

    /// The address of the page that `mapb` shows: the page before the current
    /// one. On the first page, and before any page, there is none.
    pub fn mapb_url(&self) -> (url: Option<String>)
        ensures
            text_of(url) == self@.previous,
    {
        match &self.previous {
            Some(previous) => Some(previous.clone()),
            None => None,
        }
    }

    /// The address that `explore` fetches for `area`: the address of the
    /// current page with the area's name behind it. Before any page was
    /// shown there is none.
    pub fn explore_url(&self, area: &str) -> (url: Option<String>)
        ensures
            text_of(url) == match self@.current {
                Some(current) => Some(current + area@),
                None => None,
            },
    {
        match &self.current {
            Some(current) => Some(current.clone().concat(area)),
            None => None,
        }
    }

    /// The address that `catch` fetches for the Pokemon called `name`.
    pub fn catch_url(name: &str) -> (url: String)
        ensures
            url@ == pokemon_page() + name@,
    {
        "https://pokeapi.co/api/v2/pokemon/".to_owned().concat(name)
    }

    /// Records that the page `page` of the map, fetched from `url`, was
    /// shown: it becomes the current page and its areas the listing.
    pub fn show_page(&mut self, url: String, page: LocationAreas)
        ensures
            final(self)@ == after_page(old(self)@, url@, page),
            final(self).commands() == old(self).commands(),
    {
        proof {
            use_type_invariant(&*self);
        }
        self.current = Some(url);
        self.next = Some(page.next);
        self.previous = page.previous;
        self.locations = page.results;
        self.mode = Some(Mode::LocationListing);
    }

    /// Records that the Pokemon of an area were listed.
    pub fn show_area(&mut self, pokemon: Vec<String>)
        ensures
            final(self)@ == after_area(old(self)@, pokemon@),
            final(self).commands() == old(self).commands(),
    {
        proof {
            use_type_invariant(&*self);
        }
        self.pokemon = pokemon;
        self.mode = Some(Mode::PokemonListing);
    }

    fn position(&self, name: &String) -> (found: Option<usize>)
        ensures
            match found {
                Some(i) => i < self.pokedex@.len() && self.pokedex@[i as int].name@ == name@,
                None => !has_caught(self.pokedex@, name@),
            },
    {
        let mut i: usize = 0;
        while i < self.pokedex.len()
            invariant
                i <= self.pokedex@.len(),
                forall|j: int| 0 <= j < i ==> (#[trigger] self.pokedex@[j]).name@ != name@,
            decreases self.pokedex@.len() - i,
        {
            if self.pokedex[i].name == *name {
                return Some(i);
            }
            i += 1;
        }
        None
    }

    /// The caught Pokemon called `name`, if there is one.
    pub fn inspect(&self, name: &str) -> (found: Option<&PokemonDetails>)
        ensures
            found matches Some(details) ==> details.name@ == name@ && self@.pokedex.contains(
                *details,
            ),
            found is None ==> !has_caught(self@.pokedex, name@),
    {
        let wanted = name.to_owned();
        match self.position(&wanted) {
            Some(i) => Some(&self.pokedex[i]),
            None => None,
        }
    }

    /// Settles a throw at `target` with the given roll. A roll above the
    /// target's base experience catches it, and a caught Pokemon enters the
    /// Pokedex unless one of its name is there already.
    pub fn settle_throw(&mut self, target: PokemonDetails, roll: u32) -> (caught: bool)
        ensures
            caught == beats(roll, target.base_experience),
            final(self)@ == after_throw(old(self)@, target, roll),
            final(self).commands() == old(self).commands(),
    {
        proof {
            use_type_invariant(&*self);
        }
        let caught = is_caught(roll, target.base_experience);
        if caught && self.position(&target.name).is_none() {
            let mut pokedex: Vec<PokemonDetails> = Vec::new();
            std::mem::swap(&mut self.pokedex, &mut pokedex);
            pokedex.push(target);
            self.pokedex = pokedex;
        }
        caught
    }

    /// Throws a Pokeball at `target`: rolls the die and settles the throw.
    pub fn throw_ball(&mut self, target: PokemonDetails) -> (throw: Throw)
        ensures
            throw.roll < CATCH_ROLLS,
            throw.caught == beats(throw.roll, target.base_experience),
            final(self)@ == after_throw(old(self)@, target, throw.roll),
            final(self).commands() == old(self).commands(),
    {
        let roll = roll();
        let caught = self.settle_throw(target, roll);
        Throw { roll, caught }
    }
}

} // verus!
