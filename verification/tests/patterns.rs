//! The detectors against the same patterns as regular expressions, on lines
//! that are put together at random from parts of timestamps.

use chrono::{NaiveDate, NaiveDateTime};
use regex::{Captures, Regex};

use logpushi::sampling::Rng;
use logpushi::timestamp::{detect, syslog_host, DetectedFormat};

struct Patterns {
    iso: Regex,
    ctf: Regex,
    clf: Regex,
    syslog: Regex,
    health: Regex,
    proxifier: Regex,
    android: Regex,
    host: Regex,
}

fn patterns() -> Patterns {
    let iso = concat(&[
        r"\b(\d{4})-(\d{2})-(\d{2})[T ](\d{2}):(\d{2}):(\d{2})",
        r"(?:[.,](\d{1,9}))?(Z|z|[+-]\d{2}(?::?\d{2})?)?",
    ]);
    let regex = |p: &str| Regex::new(p).unwrap();
    Patterns {
        iso: regex(&iso),
        ctf: regex(r"\[(\w{3}) (\w{3}) ( ?\d{1,2}) (\d{2}):(\d{2}):(\d{2}) (\d{4})\]"),
        clf: regex(r"(\d{2})/(\w{3})/(\d{4}):(\d{2}):(\d{2}):(\d{2}) ([+-]\d{4})\b"),
        syslog: regex(r"^([A-Za-z]{3}) ( ?\d{1,2}) (\d{2}):(\d{2}):(\d{2})(?:\s|$)"),
        health: regex(r"\b(\d{4})(\d{2})(\d{2})-(\d{2}):(\d{2}):(\d{2}):(\d{3})\b"),
        proxifier: regex(r"\[(\d{2})\.(\d{2}) (\d{2}):(\d{2}):(\d{2})\]"),
        android: regex(r"\b(\d{2})-(\d{2}) (\d{2}):(\d{2}):(\d{2})\.(\d{3})\b"),
        host: regex(r"^\w{3}\s+\d{1,2}\s+\d{2}:\d{2}:\d{2}\s+(\S+)"),
    }
}

fn concat(parts: &[&str]) -> String {
    let mut out = String::new();
    for p in parts {
        out.push_str(p);
    }
    out
}

fn num(c: &Captures, i: usize) -> Option<u32> {
    c[i].trim().parse().ok()
}

fn month(name: &str) -> Option<u32> {
    let names = [
        "jan", "feb", "mar", "apr", "may", "jun", "jul", "aug", "sep", "oct", "nov", "dec",
    ];
    let name = name.to_ascii_lowercase();
    names.iter().position(|n| *n == name).map(|i| i as u32 + 1)
}

fn date_time(
    y: Option<u32>,
    m: Option<u32>,
    d: Option<u32>,
    h: Option<u32>,
    mi: Option<u32>,
    s: Option<u32>,
) -> Option<NaiveDateTime> {
    NaiveDate::from_ymd_opt(y? as i32, m?, d?)?.and_hms_opt(h?, mi?, s?)
}

fn is_offset(t: &str) -> bool {
    if t.eq_ignore_ascii_case("z") {
        return true;
    }
    let digits = t[1..].replace(':', "");
    digits.len() == 4
        && digits.bytes().all(|b| b.is_ascii_digit())
        && digits[..2].parse::<u32>().unwrap() <= 23
        && digits[2..].parse::<u32>().unwrap() <= 59
}

fn whole(c: &Captures) -> (usize, usize) {
    (c.get(0).unwrap().start(), c.get(0).unwrap().end())
}

fn iso(p: &Patterns, line: &str) -> Option<(usize, usize)> {
    let c = p.iso.captures(line)?;
    date_time(num(&c, 1), num(&c, 2), num(&c, 3), num(&c, 4), num(&c, 5), num(&c, 6))?;
    match c.get(8) {
        Some(z) if !is_offset(z.as_str()) => None,
        _ => Some(whole(&c)),
    }
}

fn ctf(p: &Patterns, line: &str) -> Option<(usize, usize)> {
    let c = p.ctf.captures(line)?;
    date_time(num(&c, 7), month(&c[2]), num(&c, 3), num(&c, 4), num(&c, 5), num(&c, 6))?;
    Some(whole(&c))
}

fn clf(p: &Patterns, line: &str) -> Option<(usize, usize)> {
    let c = p.clf.captures(line)?;
    date_time(num(&c, 3), month(&c[2]), num(&c, 1), num(&c, 4), num(&c, 5), num(&c, 6))?;
    if is_offset(&c[7]) {
        Some(whole(&c))
    } else {
        None
    }
}

fn epoch(line: &str) -> Option<(usize, usize)> {
    let mut start = 0;
    for token in line.split([' ', '\t']) {
        let end = start + token.len();
        if (9..=13).contains(&token.len()) && token.bytes().all(|b| b.is_ascii_digit()) {
            let v: u64 = token.parse().unwrap();
            let plausible = if token.len() <= 10 {
                (100_000_000..=2_145_916_800).contains(&v)
            } else {
                (1_000_000_000_000..=2_145_916_800_000).contains(&v)
            };
            if plausible {
                return Some((start, end));
            }
        }
        start = end + 1;
    }
    None
}

fn syslog(p: &Patterns, line: &str) -> Option<(usize, usize)> {
    let c = p.syslog.captures(line)?;
    date_time(Some(2000), month(&c[1]), num(&c, 2), num(&c, 3), num(&c, 4), num(&c, 5))?;
    Some((0, c.get(5).unwrap().end()))
}

fn health(p: &Patterns, line: &str) -> Option<(usize, usize)> {
    let c = p.health.captures(line)?;
    date_time(num(&c, 1), num(&c, 2), num(&c, 3), num(&c, 4), num(&c, 5), num(&c, 6))?;
    num(&c, 7)?;
    Some(whole(&c))
}

fn proxifier(p: &Patterns, line: &str) -> Option<(usize, usize)> {
    let c = p.proxifier.captures(line)?;
    date_time(Some(2000), num(&c, 1), num(&c, 2), num(&c, 3), num(&c, 4), num(&c, 5))?;
    Some(whole(&c))
}

fn android(p: &Patterns, line: &str) -> Option<(usize, usize)> {
    let c = p.android.captures(line)?;
    date_time(Some(2000), num(&c, 1), num(&c, 2), num(&c, 3), num(&c, 4), num(&c, 5))?;
    num(&c, 6)?;
    Some(whole(&c))
}

fn by_patterns(p: &Patterns, line: &str) -> Option<(DetectedFormat, (usize, usize))> {
    iso(p, line)
        .map(|x| (DetectedFormat::Iso, x))
        .or_else(|| ctf(p, line).map(|x| (DetectedFormat::ApacheCtf, x)))
        .or_else(|| clf(p, line).map(|x| (DetectedFormat::ApacheClf, x)))
        .or_else(|| epoch(line).map(|x| (DetectedFormat::Epoch, x)))
        .or_else(|| syslog(p, line).map(|x| (DetectedFormat::SyslogNoYear, x)))
        .or_else(|| health(p, line).map(|x| (DetectedFormat::HealthApp, x)))
        .or_else(|| proxifier(p, line).map(|x| (DetectedFormat::Proxifier, x)))
        .or_else(|| android(p, line).map(|x| (DetectedFormat::Android, x)))
}

fn pick<'a>(rng: &mut Rng, from: &[&'a str]) -> &'a str {
    from[rng.below(from.len() as u64) as usize]
}

fn line(rng: &mut Rng) -> String {
    let parts = [
        "2015-10-17", "2005-02-29", "2015-13-01", "15:37:56", "24:00:00", " ", "  ", "\t", "T",
        ".123", ",5", ".0123456789", "Z", "z", "+0000", "+05", "-07:00", "+2400", "[", "]", "Thu",
        "Jun", "feb", "Foo", "9", "09", "31", "2005", "/", "10/Jun/2005:06:07:04 +0000", "10",
        "20171223-22:15:29:606", "20170231-22:15:29", "|", "12-17 19:31:36.263", "10.30", "-",
        "1117838570", "99999999", "1514038530000", "Dec 10 06:55:46", "Jun  9 06:06:20", "a", "é",
        "٢", "٢٠١٥", "_", ":606", "[Thu Jun 09 06:07:04 2005]", "[10.30 16:49:06]", "\u{a0}", "x ",
    ];
    let glue = ["", "", "", " "];
    let mut out = String::new();
    for _ in 0..1 + rng.below(7) {
        out.push_str(pick(rng, &parts));
        out.push_str(pick(rng, &glue));
    }
    out
}

#[test]
fn detection_follows_the_patterns() {
    let p = patterns();
    let mut rng = Rng::new(20_240_229);
    let mut found = 0;
    for _ in 0..20_000 {
        let line = line(&mut rng);
        let got = detect(&line).map(|m| (m.format, (m.start, m.end)));
        assert_eq!(got, by_patterns(&p, &line), "{line:?}");
        found += got.is_some() as u32;
    }
    assert!(found > 5_000, "{found}");
}

#[test]
fn hosts_follow_the_pattern() {
    let p = patterns();
    let mut rng = Rng::new(7);
    let parts = [
        "Dec", "Jun", "é1_", "ab", " ", "  ", "\u{a0}", "9", "10", "123", "06:55:46", "٠٦:55:46",
        "host", "x y", "\t", ":", "",
    ];
    let mut found = 0;
    for _ in 0..60_000 {
        let mut line = String::new();
        for part in ["Dec", " ", "10", " ", "06:55:46", " ", "host", ""] {
            if rng.below(5) > 0 {
                line.push_str(part);
            } else {
                line.push_str(pick(&mut rng, &parts));
            }
        }
        let want = p.host.captures(&line).map(|c| c[1].to_string());
        assert_eq!(syslog_host(&line), want, "{line:?}");
        found += want.is_some() as u32;
    }
    assert!(found > 10_000, "{found}");
}
