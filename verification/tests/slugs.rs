use main_tourney_manager_gg::plugins::{extension_of, keeps_plugin};
use main_tourney_manager_gg::slug::{
    ensure_tournament_prefix, normalize_bucket_id, normalize_event_slug, normalize_tournament_slug,
    sanitize_startgg_slug,
};

fn is_well_formed_id(id: &str) -> bool {
    !id.is_empty()
        && !id.starts_with('-')
        && !id.ends_with('-')
        && !id.contains("--")
        && id.chars().all(|c| c == '-' || c.is_ascii_lowercase() || c.is_ascii_digit())
}

#[test]
fn bucket_id_lowercases_and_dashes() {
    assert_eq!(normalize_bucket_id("Top 8 Bracket"), "top-8-bracket");
    assert_eq!(normalize_bucket_id("Pools_A"), "pools-a");
}

#[test]
fn bucket_id_collapses_and_trims_dashes() {
    assert_eq!(normalize_bucket_id("  --Pools__A!! "), "pools-a");
    assert_eq!(normalize_bucket_id("a - - b"), "a-b");
}

#[test]
fn bucket_id_drops_other_characters() {
    assert_eq!(normalize_bucket_id("pg:12345"), "pg12345");
    assert_eq!(normalize_bucket_id("ep:Ultimate Singles::Pools"), "epultimate-singlespools");
    assert_eq!(normalize_bucket_id("Café Zoë"), "caf-zo");
}

#[test]
fn bucket_id_falls_back_when_nothing_is_left() {
    assert_eq!(normalize_bucket_id("!!!"), "bucket");
    assert_eq!(normalize_bucket_id(""), "bucket");
    assert_eq!(normalize_bucket_id(" - _ "), "bucket");
}

#[test]
fn bucket_ids_are_always_well_formed() {
    for name in ["", "--", "e:Melee", "pg:1", "A  B", "_x_", "Ünïcode only", "Top 8 -- Finals!"] {
        let id = normalize_bucket_id(name);
        assert!(is_well_formed_id(&id), "{name:?} gave {id:?}");
    }
}

#[test]
fn sanitize_removes_site_prefix_and_slashes() {
    assert_eq!(
        sanitize_startgg_slug("  https://www.start.gg/tournament/genesis-x/event/ultimate-singles/ "),
        "tournament/genesis-x/event/ultimate-singles"
    );
    assert_eq!(sanitize_startgg_slug("start.gg/tournament/x//"), "tournament/x");
    assert_eq!(sanitize_startgg_slug("http://start.gg/abc"), "abc");
    assert_eq!(sanitize_startgg_slug("www.start.gg/abc"), "abc");
    assert_eq!(sanitize_startgg_slug("/foo/"), "foo");
    assert_eq!(sanitize_startgg_slug("   "), "");
}

#[test]
fn sanitize_strips_only_one_prefix() {
    assert_eq!(sanitize_startgg_slug("start.gg/start.gg/foo"), "start.gg/foo");
}

#[test]
fn sanitized_slugs_have_no_outer_slash() {
    for raw in ["///a///", "https://start.gg//x/", " / ", "a/b"] {
        let s = sanitize_startgg_slug(raw);
        assert!(!s.starts_with('/') && !s.ends_with('/'), "{raw:?} gave {s:?}");
    }
}

#[test]
fn tournament_prefix_is_added_once() {
    assert_eq!(ensure_tournament_prefix("genesis"), "tournament/genesis");
    assert_eq!(ensure_tournament_prefix("Tournament/Genesis"), "Tournament/Genesis");
    let once = ensure_tournament_prefix("abc");
    assert_eq!(ensure_tournament_prefix(&once), once);
}

#[test]
fn tournament_slug_keeps_the_tournament_key() {
    assert_eq!(
        normalize_tournament_slug("tournament/genesis-x/event/ultimate-singles"),
        "tournament/genesis-x"
    );
    assert_eq!(normalize_tournament_slug("genesis-x"), "tournament/genesis-x");
    assert_eq!(normalize_tournament_slug("https://start.gg/TOURNAMENT/abc/events"), "tournament/abc");
    assert_eq!(normalize_tournament_slug(""), "");
    assert_eq!(normalize_tournament_slug("  / "), "");
}

#[test]
fn tournament_slug_of_a_bare_prefix() {
    assert_eq!(normalize_tournament_slug("tournament"), "tournament/tournament");
    assert_eq!(normalize_tournament_slug("tournament/"), "tournament/tournament");
}

#[test]
fn event_slug_is_found_in_urls() {
    assert_eq!(
        normalize_event_slug("tournament/genesis-x/event/ultimate-singles").as_deref(),
        Some("tournament/genesis-x/event/ultimate-singles")
    );
    assert_eq!(
        normalize_event_slug("https://www.start.gg/tournament/genesis-x/event/ultimate-singles/overview")
            .as_deref(),
        Some("tournament/genesis-x/event/ultimate-singles")
    );
    assert_eq!(
        normalize_event_slug("genesis-x/EVENT/melee").as_deref(),
        Some("tournament/genesis-x/event/melee")
    );
}

#[test]
fn event_slug_is_absent_without_an_event() {
    assert_eq!(normalize_event_slug("tournament/genesis-x"), None);
    assert_eq!(normalize_event_slug("tournament/x/events/y"), None);
    assert_eq!(normalize_event_slug("tournament/x/event"), None);
    assert_eq!(normalize_event_slug(""), None);
    assert_eq!(normalize_event_slug("tournament/x/y/z"), None);
}

#[test]
fn event_slug_lies_within_the_tournament_slug() {
    for raw in [
        "tournament/genesis-x/event/ultimate-singles",
        "start.gg/tournament/a/b/event/c/d",
        "x/event/y",
        "Tournament/Big/Event/Small",
    ] {
        let e = normalize_event_slug(raw).unwrap();
        let t = normalize_tournament_slug(raw);
        assert!(e.starts_with(&format!("{t}/event/")), "{raw:?}: {e:?} vs {t:?}");
    }
}

#[test]
fn plugin_filter_keeps_shared_objects_but_pipewire() {
    assert!(keeps_plugin("libgstvideo4linux2.so"));
    assert!(!keeps_plugin("libgstpipewire.so"));
    assert!(!keeps_plugin("readme.txt"));
    assert!(!keeps_plugin(".so"));
    assert!(!keeps_plugin("libx.so.1"));
    assert!(!keeps_plugin("so"));
}

#[test]
fn file_extension_follows_the_last_dot() {
    assert_eq!(extension_of("archive.tar.gz").as_deref(), Some("gz"));
    assert_eq!(extension_of("file.").as_deref(), Some(""));
    assert_eq!(extension_of(".bashrc"), None);
    assert_eq!(extension_of("noext"), None);
    assert_eq!(extension_of(".."), None);
}

#[test]
fn bucket_id_of_a_bucket_id_is_itself() {
    for name in ["Top 8 Bracket", "pg:12", "!!!", "  --Pools__A!! ", "ep:Ult::Pools"] {
        let id = normalize_bucket_id(name);
        assert_eq!(normalize_bucket_id(&id), id);
    }
}

#[test]
fn event_slug_normalises_to_itself() {
    for raw in [
        "tournament/genesis-x/event/ultimate-singles",
        "https://start.gg/Tournament/Big/Event/Small/overview",
        "x/event/y",
        "tournament/a b/event/c d",
    ] {
        let e = normalize_event_slug(raw).unwrap();
        assert_eq!(normalize_event_slug(&e), Some(e.clone()), "{raw:?}");
        assert_eq!(normalize_tournament_slug(&e), normalize_tournament_slug(raw), "{raw:?}");
    }
}

#[test]
fn event_slug_from_input_without_white_space_is_stable() {
    for raw in [
        "https://www.start.gg/tournament/Genesis-X/event/Ultimate-Singles/brackets/1/2",
        "TOURNAMENT/a/EVENT/b/",
        "/tournament//k/event/x?y=z",
        "a/event/b",
    ] {
        let e = normalize_event_slug(raw).unwrap();
        assert!(!e.ends_with(char::is_whitespace), "{raw:?} gave {e:?}");
        assert_eq!(normalize_event_slug(&e), Some(e.clone()), "{raw:?}");
    }
}

#[test]
fn event_slug_ending_in_white_space_is_trimmed_again() {
    let e = normalize_event_slug("tournament/k/event/x /").unwrap();
    assert_eq!(e, "tournament/k/event/x ");
    assert_eq!(normalize_event_slug(&e).as_deref(), Some("tournament/k/event/x"));
    assert_eq!(normalize_tournament_slug(&e), "tournament/k");
    let blank = normalize_event_slug("tournament/k/event/ /").unwrap();
    assert_eq!(normalize_event_slug(&blank), None);
    assert_eq!(normalize_tournament_slug(&blank), "tournament/k");
}

#[test]
fn tournament_slug_is_prefix_and_one_key() {
    for raw in ["genesis", "tournament/x//y/", "TOURNAMENT/Abc", "start.gg/a/b/c", " tournament ", "tournament/tournament/"] {
        let t = normalize_tournament_slug(raw);
        let key = t.strip_prefix("tournament/").unwrap();
        assert!(!key.is_empty() && !key.contains('/'), "{raw:?} gave {t:?}");
    }
}
