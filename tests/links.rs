use playlist_api::{AmusicUrl, SpotifyUrl, ValidationError};
use regex::Regex;

#[test]
fn spotify_url() {
    let playlist = SpotifyUrl::new(
        "https://open.spotify.com/user/marauderxtreme/playlist/6YZJnIXDOHyY0eu6PEFLUQ",
    )
    .unwrap();
    assert_eq!(playlist.id(), String::from("6YZJnIXDOHyY0eu6PEFLUQ"));
    assert_eq!(playlist.user(), String::from("marauderxtreme"));
}

#[test]
fn spotify_url_embedded() {
    let playlist = SpotifyUrl::new(
        "https://open.spotify.com/embed/user/marauderxtreme/playlist/6YZJnIXDOHyY0eu6PEFLUQ",
    )
    .unwrap();
    assert_eq!(playlist.id(), String::from("6YZJnIXDOHyY0eu6PEFLUQ"));
    assert_eq!(playlist.user(), String::from("marauderxtreme"));
}

#[test]
#[should_panic]
fn spotify_wrong_url() {
    let _ = SpotifyUrl::new("https://open.spotify.com/wrong/url/pattern").unwrap();
}

#[test]
fn spotify_wrong_url_error() {
    let r = SpotifyUrl::new("https://open.spotify.com/wrong/url/pattern");
    assert_eq!(r.unwrap_err(), ValidationError::NoValidSpoityUrl);
}

#[test]
fn spotify_url_generation() {
    let playlist = SpotifyUrl::new(
        "https://open.spotify.com/user/marauderxtreme/playlist/6YZJnIXDOHyY0eu6PEFLUQ",
    )
    .unwrap();
    assert_eq!(
        playlist.url(),
        String::from(
            "https://open.spotify.com/user/marauderxtreme/playlist/6YZJnIXDOHyY0eu6PEFLUQ"
        )
    );
    assert_eq!(playlist.embed_url(), String::from("https://open.spotify.com/embed/user/marauderxtreme/playlist/6YZJnIXDOHyY0eu6PEFLUQ"));
}

#[test]
fn spotify_link_found_inside_text() {
    let playlist = SpotifyUrl::new("see https://open.spotify.com/user/me/playlist/abc").unwrap();
    assert_eq!(playlist.user(), "me");
    assert_eq!(playlist.id(), "abc");
}

#[test]
fn spotify_first_link_wins() {
    let playlist = SpotifyUrl::new(
        "https://open.spotify.com/user/a/playlist/https://open.spotify.com/user/b/playlist/c",
    )
    .unwrap();
    assert_eq!(playlist.user(), "a");
    assert_eq!(playlist.id(), "https://open.spotify.com/user/b/playlist/c");
}

#[test]
fn spotify_rejects_empty_parts_and_other_hosts() {
    for url in [
        "",
        "https://open.spotify.com/user//playlist/abc",
        "https://open.spotify.com/user/me/playlist/",
        "https://open.spotify.com/embed/playlist/abc",
        "http://open.spotify.com/user/me/playlist/abc",
        "https://open.Spotify.com/user/me/playlist/abc",
        "https://open.spotify.com/user/me/album/abc",
    ] {
        assert_eq!(SpotifyUrl::new(url).unwrap_err(), ValidationError::NoValidSpoityUrl, "{}", url);
    }
}

#[test]
fn spotify_round_trip() {
    for url in [
        "https://open.spotify.com/user/marauderxtreme/playlist/6YZJnIXDOHyY0eu6PEFLUQ",
        "https://open.spotify.com/embed/user/x/playlist/a/b/c",
        "xx https://open.spotify.com/user/ü/playlist/ß",
    ] {
        let x = SpotifyUrl::new(url).unwrap();
        for written in [x.url(), x.embed_url()] {
            let y = SpotifyUrl::new(&written).unwrap();
            assert_eq!(y.user(), x.user());
            assert_eq!(y.id(), x.id());
        }
    }
}

#[test]
fn spotify_agrees_with_regex() {
    let re = Regex::new(
        r"https://open\.spotify\.com/(?:embed/)?user/(?P<user>[^/]+)/playlist/(?P<id>.+)",
    )
    .unwrap();
    for url in [
        "https://open.spotify.com/user/marauderxtreme/playlist/6YZJnIXDOHyY0eu6PEFLUQ",
        "https://open.spotify.com/embed/user/marauderxtreme/playlist/6YZJnIXDOHyY0eu6PEFLUQ",
        "see https://open.spotify.com/user/me/playlist/abc",
        "https://open.spotify.com/wrong/url/pattern",
    ] {
        match (re.captures(url), SpotifyUrl::new(url)) {
            (Some(c), Ok(link)) => {
                assert_eq!(&c["user"], link.user());
                assert_eq!(&c["id"], link.id());
            }
            (None, Err(_)) => {}
            _ => panic!("disagreement on {}", url),
        }
    }
}

#[test]
fn amusic_url() {
    let playlist = AmusicUrl::new(
        "https://itunes.apple.com/de/playlist/mafia-ii-empire-central-radio/pl.u-WBYGFvpeKLk",
    )
    .unwrap();
    assert_eq!(playlist.id(), String::from("pl.u-WBYGFvpeKLk"));
    assert_eq!(
        playlist.link_name(),
        String::from("mafia-ii-empire-central-radio")
    );
}

#[test]
fn amusic_url_embedded() {
    let playlist = AmusicUrl::new(
        "https://tools.applemusic.com/embed/v1/playlist/pl.u-WBYGFvpeKLk",
    )
    .unwrap();
    assert_eq!(playlist.id(), String::from("pl.u-WBYGFvpeKLk"));
    assert_eq!(playlist.link_name(), String::from(""));
}

#[test]
#[should_panic]
fn amusic_wrong_url() {
    let _ = AmusicUrl::new("https://tools.applemusic.com/embed/v1/noplaylist/pl.u-WBYGFvpeKLk")
        .unwrap();
}

#[test]
fn amusic_wrong_url_error() {
    let r = AmusicUrl::new("https://tools.applemusic.com/embed/v1/noplaylist/pl.u-WBYGFvpeKLk");
    assert_eq!(r.unwrap_err(), ValidationError::NoValidAmusicUrl);
}

#[test]
fn amusic_url_generation() {
    let playlist = AmusicUrl::new(
        "https://itunes.apple.com/de/playlist/mafia-ii-empire-central-radio/pl.u-WBYGFvpeKLk",
    )
    .unwrap();
    assert_eq!(
        playlist.url(),
        String::from(
            "https://itunes.apple.com/de/playlist/mafia-ii-empire-central-radio/pl.u-WBYGFvpeKLk"
        )
    );
    let playlist2 = AmusicUrl::new(
        "https://tools.applemusic.com/embed/v1/playlist/pl.u-WBYGFvpeKLk",
    )
    .unwrap();
    assert_eq!(
        playlist2.url(),
        String::from("https://itunes.apple.com/de/playlist/pl.u-WBYGFvpeKLk")
    );

    assert_eq!(
        playlist.embed_url(),
        String::from("https://tools.applemusic.com/embed/v1/playlist/pl.u-WBYGFvpeKLk")
    );
    assert_eq!(
        playlist2.embed_url(),
        String::from("https://tools.applemusic.com/embed/v1/playlist/pl.u-WBYGFvpeKLk")
    );
}

#[test]
fn amusic_store_link_without_name_and_other_locale() {
    let playlist = AmusicUrl::new("https://itunes.apple.com/us/playlist/pl.u-abc").unwrap();
    assert_eq!(playlist.link_name(), "");
    assert_eq!(playlist.id(), "pl.u-abc");
    assert_eq!(playlist.url(), "https://itunes.apple.com/de/playlist/pl.u-abc");
}

#[test]
fn amusic_accepts_empty_name_segment() {
    let playlist = AmusicUrl::new("https://itunes.apple.com/de/playlist//pl.u-abc").unwrap();
    assert_eq!(playlist.link_name(), "");
    assert_eq!(playlist.id(), "pl.u-abc");
}

#[test]
fn amusic_embed_link_with_name() {
    let playlist =
        AmusicUrl::new("https://tools.applemusic.com/embed/v1/playlist/radio/pl.u-abc").unwrap();
    assert_eq!(playlist.link_name(), "radio");
    assert_eq!(playlist.id(), "pl.u-abc");
}

#[test]
fn amusic_rejects_bad_ids_and_hosts() {
    for url in [
        "",
        "https://itunes.apple.com/de/playlist/name/pl.u-",
        "https://itunes.apple.com/de/playlist/name/abc",
        "https://itunes.apple.com/deu/playlist/pl.u-abc",
        "https://tools.applemusic.com/embed/v2/playlist/pl.u-abc",
        "https://music.apple.com/de/playlist/pl.u-abc",
        "https://itunes.apple.com/de/playlist/a/b/pl.u-abc",
    ] {
        assert_eq!(AmusicUrl::new(url).unwrap_err(), ValidationError::NoValidAmusicUrl, "{}", url);
    }
}

#[test]
fn amusic_round_trip() {
    for url in [
        "https://itunes.apple.com/de/playlist/mafia-ii-empire-central-radio/pl.u-WBYGFvpeKLk",
        "https://tools.applemusic.com/embed/v1/playlist/pl.u-WBYGFvpeKLk",
        "https://itunes.apple.com/fr/playlist/ñame/pl.u-1",
    ] {
        let x = AmusicUrl::new(url).unwrap();
        let from_embed = AmusicUrl::new(&x.embed_url()).unwrap();
        assert_eq!(from_embed.link_name(), "");
        assert_eq!(from_embed.id(), x.id());
        let from_store = AmusicUrl::new(&x.url()).unwrap();
        assert_eq!(from_store.link_name(), x.link_name());
        assert_eq!(from_store.id(), x.id());
    }
}

#[test]
fn amusic_agrees_with_regex() {
    let re = Regex::new(
        r"https://(?:itunes\.apple|tools\.applemusic)\.com/(?:.{2}|embed/v1)/playlist/(?:(?P<name>[^/]*)/?)(?P<id>pl\.u-.+)",
    )
    .unwrap();
    for url in [
        "https://itunes.apple.com/de/playlist/mafia-ii-empire-central-radio/pl.u-WBYGFvpeKLk",
        "https://tools.applemusic.com/embed/v1/playlist/pl.u-WBYGFvpeKLk",
        "https://itunes.apple.com/de/playlist/pl.u-WBYGFvpeKLk",
        "https://tools.applemusic.com/embed/v1/noplaylist/pl.u-WBYGFvpeKLk",
    ] {
        match (re.captures(url), AmusicUrl::new(url)) {
            (Some(c), Ok(link)) => {
                assert_eq!(&c["name"], link.link_name());
                assert_eq!(&c["id"], link.id());
            }
            (None, Err(_)) => {}
            _ => panic!("disagreement on {}", url),
        }
    }
}

#[test]
fn validation_error_messages() {
    assert_eq!(ValidationError::NoValidSpoityUrl.message(), "No matching spotify url");
    assert_eq!(ValidationError::NoValidAmusicUrl.message(), "No matching apple music url");
}

#[test]
fn amusic_embed_of_id_holding_slash_and_second_id() {
    let x = AmusicUrl::new("https://itunes.apple.com/de/playlist/a/pl.u-b/pl.u-c").unwrap();
    assert_eq!(x.link_name(), "a");
    assert_eq!(x.id(), "pl.u-b/pl.u-c");
    let y = AmusicUrl::new(&x.embed_url()).unwrap();
    assert_eq!(y.link_name(), "pl.u-b");
    assert_eq!(y.id(), "pl.u-c");
}
