use autarch_readme::artists::{artist_link, artist_lines, Artist};
use autarch_readme::feed::{blog_posts_from_feed, FeedError};

fn feed(items: &[(&str, &str, &str)]) -> String {
    let mut s = String::from("<?xml version=\"1.0\"?><rss version=\"2.0\"><channel><title>t</title><link>l</link><description>d</description>");
    for (title, date, link) in items {
        s.push_str(&format!("<item><title>{title}</title><pubDate>{date}</pubDate><link>{link}</link></item>"));
    }
    s.push_str("</channel></rss>");
    s
}

#[test]
fn blog_posts_are_the_first_five() {
    let items: Vec<(String, String, String)> = (1..=7)
        .map(|i| (format!("Post {i}"), format!("0{i} Feb 2023 10:00:00 +0000"), format!("https://blog.urth.org/{i}")))
        .collect();
    let refs: Vec<(&str, &str, &str)> = items.iter().map(|(a, b, c)| (a.as_str(), b.as_str(), c.as_str())).collect();
    let content = feed(&refs);
    let posts = match blog_posts_from_feed(content.as_bytes()) {
        Some(Ok(p)) => p,
        _ => panic!("expected posts"),
    };
    assert_eq!(posts.len(), 5);
    assert_eq!(posts[0].title, "Post 1");
    assert_eq!(posts[0].date, "2023-02-01");
    assert_eq!(posts[4].url, "https://blog.urth.org/5");
}

#[test]
fn blog_posts_need_five_items() {
    let content = feed(&[("a", "Wed, 01 Feb 2023 10:00:00 +0000", "l")]);
    assert!(blog_posts_from_feed(content.as_bytes()).is_none());
}

#[test]
fn blog_posts_report_bad_date() {
    let content = feed(&[
        ("a", "Wed, 01 Feb 2023 10:00:00 +0000", "l"),
        ("b", "yesterday", "l"),
        ("c", "Wed, 01 Feb 2023 10:00:00 +0000", "l"),
        ("d", "Wed, 01 Feb 2023 10:00:00 +0000", "l"),
        ("e", "Wed, 01 Feb 2023 10:00:00 +0000", "l"),
    ]);
    match blog_posts_from_feed(content.as_bytes()) {
        Some(Err(FeedError::BadDate(d))) => assert_eq!(d, "yesterday"),
        _ => panic!("expected a bad date"),
    }
}

#[test]
fn unreadable_feed() {
    assert!(matches!(blog_posts_from_feed(b"not xml at all"), Some(Err(FeedError::Unreadable))));
}

fn artist(name: &str, mbid: &str) -> Artist {
    Artist { name: name.to_string(), mbid: mbid.to_string() }
}

#[test]
fn artist_links() {
    assert_eq!(artist_link(&artist("Björk", "87c5dedd")), "[Björk](https://musicbrainz.org/artist/87c5dedd)");
    assert_eq!(
        artist_link(&artist("Sigur Rós", "")),
        "[Sigur Rós](https://musicbrainz.org/search?query=Sigur%20R%C3%B3s&type=artist&method=indexed)"
    );
}

#[test]
fn artists_sorted_by_lowercase_name() {
    let lines = artist_lines(&vec![artist("beta", "1"), artist("Alpha", "2"), artist("BETA", "3"), artist("gamma", "4")]);
    assert_eq!(lines, vec![
        "[Alpha](https://musicbrainz.org/artist/2)",
        "[beta](https://musicbrainz.org/artist/1)",
        "[BETA](https://musicbrainz.org/artist/3)",
        "[gamma](https://musicbrainz.org/artist/4)",
    ]);
}
