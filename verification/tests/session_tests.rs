use rust_pokedex::chance::{is_caught, roll, CATCH_ROLLS};
use rust_pokedex::config::{
    Action, Config, LocationArea, LocationAreas, Mode, PokemonDetails, Route, Stat,
};
use rust_pokedex::menu::{Key, Menu, Step};

fn pokemon(name: &str, base_experience: u32) -> PokemonDetails {
    PokemonDetails {
        name: name.to_string(),
        base_experience,
        height: 4,
        weight: 60,
        stats: vec![Stat { name: "hp".to_string(), base_stat: 35 }],
        types: vec!["electric".to_string()],
    }
}

fn page(next: &str, previous: Option<&str>, names: &[&str]) -> LocationAreas {
    LocationAreas {
        count: names.len(),
        next: next.to_string(),
        previous: previous.map(|p| p.to_string()),
        results: names
            .iter()
            .map(|n| LocationArea::new(n.to_string(), format!("https://example.test/{}", n)))
            .collect(),
    }
}

fn words(line: &[&str]) -> Vec<String> {
    line.iter().map(|w| w.to_string()).collect()
}

#[test]
fn a_fresh_session_is_empty() {
    let config = Config::new();
    assert_eq!(config.get_mode(), None);
    assert!(config.get_current_locations().is_empty());
    assert!(config.get_current_pokemon().is_empty());
    assert!(config.get_pokedex().is_empty());
    assert_eq!(config.mapb_url(), None);
    assert_eq!(config.explore_url("anywhere"), None);
}

#[test]
fn the_registry_lists_the_eight_commands() {
    let config = Config::new();
    let commands = config.get_commands();
    let names: Vec<&str> = commands.iter().map(|c| c.name.as_str()).collect();
    assert_eq!(names, vec!["exit", "help", "map", "mapb", "explore", "catch", "pokedex", "inspect"]);
    assert_eq!(commands[0].description, "Exit the Pokedex");
    assert_eq!(commands[1].description, "Displays a help message");
    assert_eq!(commands[2].description, "Display the next 20 locations in the Pokemon world");
    assert_eq!(commands[3].description, "Display the previous 20 locations in the Pokemon world");
    assert_eq!(commands[4].description, "List the Pokemon found in this area");
    assert_eq!(commands[5].description, "Attempt to catch a Pokemon");
    assert_eq!(commands[6].description, "List the Pokemon you've caught");
    assert_eq!(commands[7].description, "Get details of a Pokemon you've caught");
    let actions: Vec<Action> = commands.iter().map(|c| c.action).collect();
    assert_eq!(
        actions,
        vec![
            Action::Exit,
            Action::Help,
            Action::MapForward,
            Action::MapBack,
            Action::Explore,
            Action::Catch,
            Action::Pokedex,
            Action::Inspect
        ]
    );
    assert_eq!(Config::command_registry().len(), 8);
}

#[test]
fn find_command_by_name() {
    let config = Config::new();
    assert_eq!(config.find_command("exit"), Some(0));
    assert_eq!(config.find_command("mapb"), Some(3));
    assert_eq!(config.find_command("inspect"), Some(7));
    assert_eq!(config.find_command("Map"), None);
    assert_eq!(config.find_command(""), None);
    assert_eq!(config.find_command("e"), None);
}

#[test]
fn route_of_a_line() {
    let config = Config::new();
    assert_eq!(config.route(&words(&[])), Route::Nothing);
    assert_eq!(config.route(&words(&["e"])), Route::ExploreMode);
    assert_eq!(config.route(&words(&["c", "ignored"])), Route::CatchMode);
    assert_eq!(config.route(&words(&["map"])), Route::Run(2));
    assert_eq!(config.route(&words(&["catch", "pikachu"])), Route::Run(5));
    assert_eq!(config.route(&words(&["fly"])), Route::Unknown);
    assert_eq!(config.route(&words(&["E"])), Route::Unknown);
}

#[test]
fn map_starts_at_the_first_page_and_follows_next() {
    let mut config = Config::new();
    let first = config.map_url();
    assert_eq!(first, "https://pokeapi.co/api/v2/location-area/");
    // asking again before the page was shown gives the same address
    assert_eq!(config.map_url(), first);
    config.show_page(first.clone(), page("https://example.test/page-2", None, &["a", "b"]));
    assert_eq!(config.get_mode(), Some(Mode::LocationListing));
    assert_eq!(config.map_url(), "https://example.test/page-2");
    assert_eq!(config.mapb_url(), None);
    let names: Vec<&str> =
        config.get_current_locations().iter().map(|l| l.get_name().as_str()).collect();
    assert_eq!(names, vec!["a", "b"]);
    assert_eq!(config.get_current_locations()[1].get_url(), "https://example.test/b");
}

#[test]
fn mapb_goes_to_the_page_before() {
    let mut config = Config::new();
    config.show_page(
        "https://example.test/page-2".to_string(),
        page("https://example.test/page-3", Some("https://example.test/page-1"), &["c"]),
    );
    assert_eq!(config.mapb_url(), Some("https://example.test/page-1".to_string()));
    assert_eq!(config.map_url(), "https://example.test/page-3");
}

#[test]
fn explore_appends_the_area_to_the_current_page() {
    let mut config = Config::new();
    let first = config.map_url();
    config.show_page(first, page("n", None, &["canalave-city-area"]));
    assert_eq!(
        config.explore_url("canalave-city-area"),
        Some("https://pokeapi.co/api/v2/location-area/canalave-city-area".to_string())
    );
    assert_eq!(
        config.explore_url(""),
        Some("https://pokeapi.co/api/v2/location-area/".to_string())
    );
}

#[test]
fn listing_an_area_switches_the_mode() {
    let mut config = Config::new();
    config.show_page("u".to_string(), page("n", None, &["a"]));
    config.show_area(words(&["tentacool", "staryu"]));
    assert_eq!(config.get_mode(), Some(Mode::PokemonListing));
    assert_eq!(config.get_current_pokemon(), &words(&["tentacool", "staryu"]));
    assert_eq!(config.get_current_locations().len(), 1);
    config.show_page("u".to_string(), page("n", None, &["b", "c"]));
    assert_eq!(config.get_mode(), Some(Mode::LocationListing));
    assert_eq!(config.get_current_pokemon().len(), 2);
}

#[test]
fn catch_url_is_the_pokemon_page_with_the_name() {
    assert_eq!(Config::catch_url("pikachu"), "https://pokeapi.co/api/v2/pokemon/pikachu");
    assert_eq!(Config::catch_url(""), "https://pokeapi.co/api/v2/pokemon/");
}

#[test]
fn a_roll_above_the_base_experience_catches() {
    assert!(is_caught(113, 112));
    assert!(!is_caught(112, 112));
    assert!(!is_caught(0, 0));
    assert!(is_caught(349, 0));
    assert!(!is_caught(349, 349));
    assert!(!is_caught(349, 635));
}

#[test]
fn settling_a_throw_fills_the_pokedex() {
    let mut config = Config::new();
    assert!(!config.settle_throw(pokemon("pikachu", 112), 112));
    assert!(config.get_pokedex().is_empty());
    assert!(config.inspect("pikachu").is_none());
    assert!(config.settle_throw(pokemon("pikachu", 112), 113));
    assert_eq!(config.get_pokedex().len(), 1);
    let found = config.inspect("pikachu").unwrap();
    assert_eq!(found.base_experience, 112);
    assert_eq!(found.height, 4);
    assert_eq!(found.weight, 60);
    assert_eq!(found.stats[0].name, "hp");
    assert_eq!(found.stats[0].base_stat, 35);
    assert_eq!(found.types, vec!["electric"]);
    assert!(config.inspect("Pikachu").is_none());
}

#[test]
fn the_first_catch_of_a_name_stays() {
    let mut config = Config::new();
    assert!(config.settle_throw(pokemon("mew", 100), 300));
    assert!(config.settle_throw(pokemon("mew", 270), 300));
    assert!(config.settle_throw(pokemon("abra", 62), 63));
    assert_eq!(config.get_pokedex().len(), 2);
    assert_eq!(config.inspect("mew").unwrap().base_experience, 100);
    let names: Vec<&str> = config.get_pokedex().iter().map(|p| p.name.as_str()).collect();
    assert_eq!(names, vec!["mew", "abra"]);
}

#[test]
fn a_thrown_ball_rolls_below_the_number_of_sides() {
    assert_eq!(CATCH_ROLLS, 350);
    let mut config = Config::new();
    let mut seen_low = false;
    let mut seen_high = false;
    for _ in 0..2000 {
        let throw = config.throw_ball(pokemon("pidgey", 50));
        assert!(throw.roll < 350);
        assert_eq!(throw.caught, throw.roll > 50);
        if throw.roll < 175 {
            seen_low = true;
        } else {
            seen_high = true;
        }
    }
    assert!(seen_low && seen_high);
    assert_eq!(config.get_pokedex().len(), 1);
}

#[test]
fn nothing_catches_a_target_of_the_highest_base_experience() {
    let mut config = Config::new();
    for _ in 0..500 {
        let throw = config.throw_ball(pokemon("blissey", 349));
        assert!(!throw.caught);
    }
    assert!(config.get_pokedex().is_empty());
}

#[test]
fn rolls_vary() {
    let first = roll();
    let mut varied = false;
    for _ in 0..200 {
        let next = roll();
        assert!(next < CATCH_ROLLS);
        if next != first {
            varied = true;
        }
    }
    assert!(varied);
}

#[test]
fn menu_cursor_moves_and_stops_at_the_ends() {
    let mut menu = Menu::new(3);
    assert_eq!((menu.selected(), menu.len()), (0, 3));
    assert_eq!(menu.press(Key::Up), Step::Browse);
    assert_eq!(menu.selected(), 0);
    assert_eq!(menu.press(Key::Down), Step::Browse);
    assert_eq!(menu.selected(), 1);
    assert_eq!(menu.press(Key::Down), Step::Browse);
    assert_eq!(menu.press(Key::Down), Step::Browse);
    assert_eq!(menu.selected(), 2);
    assert_eq!(menu.press(Key::Up), Step::Browse);
    assert_eq!(menu.selected(), 1);
    assert_eq!(menu.press(Key::Other), Step::Browse);
    assert_eq!(menu.selected(), 1);
}

#[test]
fn menu_enter_selects_and_esc_leaves() {
    let mut menu = Menu::new(2);
    assert_eq!(menu.press(Key::Enter), Step::Select(0));
    menu.press(Key::Down);
    assert_eq!(menu.press(Key::Enter), Step::Select(1));
    assert_eq!(menu.selected(), 1);
    assert_eq!(menu.press(Key::Esc), Step::Leave);
    assert_eq!(menu.selected(), 1);
}

#[test]
fn menu_of_one_entry_never_moves() {
    let mut menu = Menu::new(1);
    menu.press(Key::Down);
    menu.press(Key::Up);
    assert_eq!(menu.selected(), 0);
    assert_eq!(menu.press(Key::Enter), Step::Select(0));
}

#[test]
fn the_parameters_are_the_words_after_the_first() {
    assert_eq!(Config::params_of(&words(&["catch", "pikachu", "now"])), words(&["pikachu", "now"]));
    assert_eq!(Config::params_of(&words(&["map"])), words(&[]));
    assert_eq!(Config::params_of(&words(&[])), words(&[]));
}
