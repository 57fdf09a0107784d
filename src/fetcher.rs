//! The directory client's rules: source file names, directory listings, the
//! download allow-list, and when a failed request is tried again.

use crate::config::{texts_of, LocationFilter};
use crate::error::{AppError, Result};
use crate::text::{
    append_int, chars_of, ends_with, find_char, first_index, has_prefix, has_suffix_at,
    i32_reading, int_text, read_i32, same_text, slice_chars, starts_with, string_of, text,
};
use vstd::arithmetic::power2::{lemma2_to64, lemma_pow2_strictly_increases, lemma_pow2_unfold, pow2};
use vstd::prelude::*;

verus! {

/// A source file found in a directory listing.
#[derive(Clone, Debug)]
pub struct FileInfo {
    pub name: String,
    pub url: String,
    pub year: i32,
    pub state: String,
    pub station_name: String,
}

/// The third `'-'`-separated part of a file name, where there is one:
/// `STATE_LOCATION...` in `PREFIX-YEAR-STATE_LOCATION....txt`.
pub open spec fn location_part(name: Seq<char>) -> Option<Seq<char>> {
    let k1 = first_index(name, '-');
    if k1 >= name.len() {
        None
    } else {
        let r1 = name.skip(k1 + 1);
        let k2 = first_index(r1, '-');
        if k2 >= r1.len() {
            None
        } else {
            let r2 = r1.skip(k2 + 1);
            Some(r2.take(first_index(r2, '-')))
        }
    }
}

/// The text before the first `'_'` of a location part: the state code.
pub open spec fn state_part(loc: Seq<char>) -> Seq<char> {
    loc.take(first_index(loc, '_'))
}

pub open spec fn txt_suffix() -> Seq<char> {
    seq!['.', 't', 'x', 't']
}

/// `s` with every trailing `.txt` removed.
pub open spec fn trim_txt(s: Seq<char>) -> Seq<char>
    decreases s.len(),
{
    if s.len() >= 4 && s.subrange(s.len() - 4, s.len() as int) == txt_suffix() {
        trim_txt(s.take(s.len() - 4))
    } else {
        s
    }
}

/// The station label of a location part: what follows its first `'_'`, without
/// the extension; `Unknown` where there is no `'_'`.
pub open spec fn station_part(loc: Seq<char>) -> Seq<char> {
    let k = first_index(loc, '_');
    if k < loc.len() {
        trim_txt(loc.skip(k + 1))
    } else {
        seq!['U', 'n', 'k', 'n', 'o', 'w', 'n']
    }
}

/// The address of a file of a year under a base address.
pub open spec fn file_url(base_url: Seq<char>, year: int, name: Seq<char>) -> Seq<char> {
    base_url + seq!['/'] + int_text(year) + seq!['/'] + name
}

/// `info` describes the file `name` of `year` under `base_url`.
pub open spec fn describes(info: FileInfo, name: Seq<char>, year: i32, base_url: Seq<char>) -> bool {
    &&& location_part(name) is Some
    &&& info.name@ == name
    &&& info.url@ == file_url(base_url, year as int, name)
    &&& info.year == year
    &&& info.state@ == state_part(location_part(name)->0)
    &&& info.station_name@ == station_part(location_part(name)->0)
}

pub open spec fn lacks(s: Seq<char>, c: char) -> bool {
    forall|i: int| 0 <= i < s.len() ==> s[i] != c
}

/// The fields of a conforming source file name: for
/// `PREFIX-YEAR-ST_REST.txt`, with no `'-'` in any part, no `'_'` in the state
/// code `ST`, and no `.txt` already ending `REST`, the location part is found,
/// its state code is `ST` and its station label is `REST`.
pub proof fn lemma_filename_fields(prefix: Seq<char>, year: Seq<char>, st: Seq<char>, rest: Seq<char>)
    requires
        lacks(prefix, '-'),
        lacks(year, '-'),
        lacks(st, '-'),
        lacks(st, '_'),
        lacks(rest, '-'),
        !(rest.len() >= 4 && rest.subrange(rest.len() - 4, rest.len() as int) == txt_suffix()),
    ensures
        ({
            let name = prefix + seq!['-'] + year + seq!['-'] + st + seq!['_'] + rest + txt_suffix();
            &&& location_part(name) is Some
            &&& state_part(location_part(name)->0) == st
            &&& station_part(location_part(name)->0) == rest
        }),
{
    let loc = st + seq!['_'] + rest + txt_suffix();
    let r1 = year + seq!['-'] + loc;
    let name = prefix + seq!['-'] + year + seq!['-'] + st + seq!['_'] + rest + txt_suffix();
    assert(name =~= prefix + seq!['-'] + r1);
    crate::text::lemma_first_index(name, '-', prefix.len() as int);
    assert(name.skip(prefix.len() as int + 1) =~= r1);
    crate::text::lemma_first_index(r1, '-', year.len() as int);
    assert(r1.skip(year.len() as int + 1) =~= loc);
    assert forall|i: int| 0 <= i < loc.len() implies loc[i] != '-' by {
        if i < st.len() {
            assert(loc[i] == st[i]);
        } else if i > st.len() && i < st.len() + 1 + rest.len() {
            assert(loc[i] == rest[i - st.len() - 1]);
        }
    }
    crate::text::lemma_first_index(loc, '-', loc.len() as int);
    assert(loc.take(loc.len() as int) =~= loc);
    crate::text::lemma_first_index(loc, '_', st.len() as int);
    assert(loc.take(st.len() as int) =~= st);
    let tail = rest + txt_suffix();
    assert(loc.skip(st.len() as int + 1) =~= tail);
    assert(tail.subrange(tail.len() - 4, tail.len() as int) =~= txt_suffix());
    assert(tail.take(tail.len() - 4) =~= rest);
    assert(first_index(name, '-') == prefix.len());
    assert(first_index(r1, '-') == year.len());
    assert(location_part(name) == Some(loc));
    assert(state_part(loc) == st);
    assert(trim_txt(rest) == rest);
    assert(trim_txt(tail) == rest);
    assert(station_part(loc) == rest);
}

/// Bounds of the location part of `name`, where there is one.
pub(crate) fn find_location(name: &Vec<char>) -> (r: Option<(usize, usize)>)
    ensures
        match r {
            Some((a, b)) => a <= b <= name.len() && location_part(name@) == Some(
                name@.subrange(a as int, b as int),
            ),
            None => location_part(name@) is None,
        },
{
    let n = name.len();
    let k1 = find_char(name, 0, '-');
    assert(name@.subrange(0, n as int) =~= name@);
    if k1 >= n {
        return None;
    }
    let k2 = find_char(name, k1 + 1, '-');
    assert(name@.skip(k1 + 1) =~= name@.subrange(k1 + 1, n as int));
    if k2 >= n {
        return None;
    }
    let k3 = find_char(name, k2 + 1, '-');
    proof {
        let r1 = name@.skip(k1 + 1);
        assert(r1.skip(k2 - k1) =~= name@.subrange(k2 + 1, n as int));
        assert(r1.skip(k2 - k1).take(k3 - k2 - 1) =~= name@.subrange(k2 + 1, k3 as int));
    }
    Some((k2 + 1, k3))
}

/// The end of the text of `s` from `from` up to `end` once every trailing
/// `.txt` is removed.
fn trim_txt_range(s: &Vec<char>, from: usize, end: usize) -> (r: usize)
    requires
        from <= end <= s.len(),
    ensures
        from <= r <= end,
        s@.subrange(from as int, r as int) == trim_txt(s@.subrange(from as int, end as int)),
{
    let suffix: Vec<char> = vec!['.', 't', 'x', 't'];
    assert(suffix@ =~= txt_suffix());
    let mut e: usize = end;
    loop
        invariant
            from <= e <= end <= s.len(),
            suffix@ == txt_suffix(),
            trim_txt(s@.subrange(from as int, e as int)) == trim_txt(
                s@.subrange(from as int, end as int),
            ),
        decreases e,
    {
        let ghost t = s@.subrange(from as int, e as int);
        if e - from >= 4 && has_suffix_at(s, e, &suffix) {
            assert(t.subrange(t.len() - 4, t.len() as int) =~= s@.take(e as int).subrange(
                e - 4,
                e as int,
            ));
            assert(t.take(t.len() - 4) =~= s@.subrange(from as int, e - 4));
            e = e - 4;
        } else {
            proof {
                if t.len() >= 4 {
                    assert(t.subrange(t.len() - 4, t.len() as int) =~= s@.take(e as int).subrange(
                        e - 4,
                        e as int,
                    ));
                }
            }
            return e;
        }
    }
}

/// Reads a source file name `PREFIX-YEAR-STATE_LOCATION....txt` of `year`
/// under `base_url`; `None` where it has fewer than three `'-'`-separated parts.
pub fn parse_filename(filename: &str, year: i32, base_url: &str) -> (r: Option<FileInfo>)
    ensures
        match r {
            Some(info) => describes(info, filename@, year, base_url@),
            None => location_part(filename@) is None,
        },
{
    let name = chars_of(filename);
    let (a, b) = match find_location(&name) {
        Some(ab) => ab,
        None => return None,
    };
    let loc = slice_chars(&name, a, b);
    let n = loc.len();
    let k = find_char(&loc, 0, '_');
    assert(loc@.subrange(0, n as int) =~= loc@);
    let state = string_of(&slice_chars(&loc, 0, k));
    assert(loc@.subrange(0, k as int) =~= loc@.take(k as int));
    let station_name = if k < n {
        let e = trim_txt_range(&loc, k + 1, n);
        assert(loc@.subrange(k + 1, n as int) =~= loc@.skip(k + 1));
        string_of(&slice_chars(&loc, k + 1, e))
    } else {
        text("Unknown")
    };
    proof {
        reveal_strlit("Unknown");
        assert("Unknown"@ =~= seq!['U', 'n', 'k', 'n', 'o', 'w', 'n']);
    }
    let mut url = text(base_url);
    url.append("/");
    append_int(&mut url, year as i64);
    url.append("/");
    url.append(filename);
    proof {
        reveal_strlit("/");
        assert("/"@ =~= seq!['/']);
    }
    Some(FileInfo { name: text(filename), url, year, state, station_name })
}

// ---------------------------------------------------------------- listings

/// The `href` of each `a` element of an HTML document, in the order of the
/// parsed document tree (the order in which the parser created the elements).
pub uninterp spec fn anchor_hrefs(html: Seq<char>) -> Seq<Seq<char>>;

/// Relies on scraper's `Html::parse_document`, `Selector::parse`, `Html::select`
/// and `Element::attr`: the `href` targets of the document's anchors, in tree
/// order. The selector `a` always compiles, so the result is always `Some`.
#[verifier::external_body]
fn anchor_targets(html: &str) -> (r: Option<Vec<String>>)
    ensures
        r is Some,
        r matches Some(v) ==> texts_of(v@) == anchor_hrefs(html@),
{
    let document = scraper::Html::parse_document(html);
    let selector = match scraper::Selector::parse("a") {
        Ok(s) => s,
        Err(_) => return None,
    };
    let mut out = Vec::new();
    for element in document.select(&selector) {
        if let Some(href) = element.value().attr("href") {
            out.push(href.to_string());
        }
    }
    Some(out)
}

/// Relies on `slice::sort`: the same items, in ascending order.
#[verifier::external_body]
fn sort_ascending(v: &mut Vec<i32>)
    ensures
        final(v)@.to_multiset() == old(v)@.to_multiset(),
        is_sorted(final(v)@),
{
    v.sort()
}

pub open spec fn is_sorted(s: Seq<i32>) -> bool {
    forall|i: int, j: int| 0 <= i <= j < s.len() ==> s[i] <= s[j]
}

/// `s` with every trailing `'/'` removed.
pub open spec fn trim_slashes(s: Seq<char>) -> Seq<char>
    decreases s.len(),
{
    if s.len() > 0 && s.last() == '/' {
        trim_slashes(s.drop_last())
    } else {
        s
    }
}

/// The year a directory link names: a numeral in 2000..=2100, trailing `'/'`s aside.
pub open spec fn year_of_link(h: Seq<char>) -> Option<i32> {
    match i32_reading(trim_slashes(h)) {
        Ok(y) => if 2000 <= y <= 2100 {
            Some(y)
        } else {
            None
        },
        Err(_) => None,
    }
}

/// The years that the links `hs` name, in link order.
pub open spec fn link_years(hs: Seq<Seq<char>>) -> Seq<i32>
    decreases hs.len(),
{
    if hs.len() == 0 {
        Seq::empty()
    } else {
        let ys = link_years(hs.drop_last());
        match year_of_link(hs.last()) {
            Some(y) => ys.push(y),
            None => ys,
        }
    }
}

pub open spec fn crnh_prefix() -> Seq<char> {
    seq!['C', 'R', 'N', 'H']
}

/// Whether a link of a year's listing is a source file that the filter admits.
pub open spec fn is_listed(filter: LocationFilter, h: Seq<char>) -> bool {
    &&& starts_with(h, crnh_prefix())
    &&& ends_with(h, txt_suffix())
    &&& filter.file_selected(h)
    &&& location_part(h) is Some
}

/// The links of `hs` that are listed source files, in order.
pub open spec fn listed_links(filter: LocationFilter, hs: Seq<Seq<char>>) -> Seq<Seq<char>>
    decreases hs.len(),
{
    if hs.len() == 0 {
        Seq::empty()
    } else {
        let ls = listed_links(filter, hs.drop_last());
        if is_listed(filter, hs.last()) {
            ls.push(hs.last())
        } else {
            ls
        }
    }
}

/// The characters of `s` without its trailing `'/'`s.
fn without_slashes(s: &str) -> (r: Vec<char>)
    ensures
        r@ == trim_slashes(s@),
{
    let c = chars_of(s);
    let mut e: usize = c.len();
    assert(c@.take(c.len() as int) =~= c@);
    while e > 0 && c[e - 1] == '/'
        invariant
            e <= c.len(),
            trim_slashes(c@.take(e as int)) == trim_slashes(c@),
        decreases e,
    {
        assert(c@.take(e as int).drop_last() =~= c@.take(e - 1));
        e -= 1;
    }
    let t = slice_chars(&c, 0, e);
    assert(t@ =~= c@.take(e as int));
    t
}

/// The base address of the archive, without trailing `'/'`s.
pub fn base_address(base_url: &str) -> (r: String)
    ensures
        r@ == trim_slashes(base_url@),
{
    string_of(&without_slashes(base_url))
}

fn link_year(h: &String) -> (r: Option<i32>)
    ensures
        r == year_of_link(h@),
{
    let t = without_slashes(h.as_str());
    match read_i32(&t) {
        Ok(y) => if 2000 <= y && y <= 2100 {
            Some(y)
        } else {
            None
        },
        Err(_) => None,
    }
}

/// The years that a listing's links name, in ascending order.
pub fn years_from_links(hrefs: &Vec<String>) -> (r: Vec<i32>)
    ensures
        r@.to_multiset() == link_years(texts_of(hrefs@)).to_multiset(),
        is_sorted(r@),
{
    let ghost hs = texts_of(hrefs@);
    let mut years: Vec<i32> = Vec::new();
    let mut j: usize = 0;
    while j < hrefs.len()
        invariant
            hs == texts_of(hrefs@),
            j <= hrefs.len(),
            years@ == link_years(hs.take(j as int)),
        decreases hrefs.len() - j,
    {
        assert(hs.take(j + 1).drop_last() =~= hs.take(j as int));
        assert(hs.take(j + 1).last() == hrefs@[j as int]@);
        if let Some(y) = link_year(&hrefs[j]) {
            years.push(y);
        }
        j += 1;
    }
    assert(hs.take(hrefs.len() as int) =~= hs);
    sort_ascending(&mut years);
    years
}

/// The source files that a year's listing links to and the filter admits, in
/// link order.
pub fn files_from_links(
    hrefs: &Vec<String>,
    year: i32,
    base_url: &str,
    filter: &LocationFilter,
) -> (r: Vec<FileInfo>)
    ensures
        r.len() == listed_links(*filter, texts_of(hrefs@)).len(),
        forall|k: int|
            0 <= k < r.len() ==> describes(
                #[trigger] r@[k],
                listed_links(*filter, texts_of(hrefs@))[k],
                year,
                base_url@,
            ),
{
    let ghost hs = texts_of(hrefs@);
    let prefix: Vec<char> = vec!['C', 'R', 'N', 'H'];
    let suffix: Vec<char> = vec!['.', 't', 'x', 't'];
    assert(prefix@ =~= crnh_prefix());
    assert(suffix@ =~= txt_suffix());
    let mut files: Vec<FileInfo> = Vec::new();
    let mut j: usize = 0;
    while j < hrefs.len()
        invariant
            hs == texts_of(hrefs@),
            prefix@ == crnh_prefix(),
            suffix@ == txt_suffix(),
            j <= hrefs.len(),
            files.len() == listed_links(*filter, hs.take(j as int)).len(),
            forall|k: int|
                0 <= k < files.len() ==> describes(
                    #[trigger] files@[k],
                    listed_links(*filter, hs.take(j as int))[k],
                    year,
                    base_url@,
                ),
        decreases hrefs.len() - j,
    {
        assert(hs.take(j + 1).drop_last() =~= hs.take(j as int));
        assert(hs.take(j + 1).last() == hrefs@[j as int]@);
        let h = hrefs[j].as_str();
        let c = chars_of(h);
        assert(c@.take(c.len() as int) =~= c@);
        if has_prefix(&c, &prefix) && has_suffix_at(&c, c.len(), &suffix) && filter.matches_file(h) {
            if let Some(info) = parse_filename(h, year, base_url) {
                files.push(info);
            }
        }
        j += 1;
    }
    assert(hs.take(hrefs.len() as int) =~= hs);
    files
}

/// The years that a directory listing page links to, in ascending order.
pub fn years_in_listing(html: &str) -> (r: Result<Vec<i32>>)
    ensures
        r is Ok,
        match r {
            Ok(ys) => ys@.to_multiset() == link_years(anchor_hrefs(html@)).to_multiset() && is_sorted(
                ys@,
            ),
            Err(e) => e is Parse,
        },
{
    match anchor_targets(html) {
        Some(hrefs) => Ok(years_from_links(&hrefs)),
        None => Err(AppError::Parse(text("Selector error"))),
    }
}

/// The admitted source files that a year's listing page links to, in link order.
pub fn files_in_listing(
    html: &str,
    year: i32,
    base_url: &str,
    filter: &LocationFilter,
) -> (r: Result<Vec<FileInfo>>)
    ensures
        r is Ok,
        match r {
            Ok(fs) => fs.len() == listed_links(*filter, anchor_hrefs(html@)).len() && forall|k: int|
                0 <= k < fs.len() ==> describes(
                    #[trigger] fs@[k],
                    listed_links(*filter, anchor_hrefs(html@))[k],
                    year,
                    base_url@,
                ),
            Err(e) => e is Parse,
        },
{
    match anchor_targets(html) {
        Some(hrefs) => Ok(files_from_links(&hrefs, year, base_url, filter)),
        None => Err(AppError::Parse(text("Selector error"))),
    }
}

// ---------------------------------------------------------------- downloads

/// What url's parser makes of a text: its scheme and host where it is an
/// absolute URL, or the parser's description of why it is not.
pub uninterp spec fn url_reading(s: Seq<char>) -> std::result::Result<
    (Seq<char>, Option<Seq<char>>),
    Seq<char>,
>;

pub open spec fn opt_text(h: Option<String>) -> Option<Seq<char>> {
    match h {
        Some(x) => Some(x@),
        None => None,
    }
}

/// Relies on url's `Url::parse`, `Url::scheme` and `Url::host_str`, and on the
/// `Display` of its `ParseError`.
#[verifier::external_body]
pub(crate) fn parse_url(s: &str) -> (r: std::result::Result<(String, Option<String>), String>)
    ensures
        match r {
            Ok((scheme, host)) => url_reading(s@) == Ok::<
                (Seq<char>, Option<Seq<char>>),
                Seq<char>,
            >((scheme@, opt_text(host))),
            Err(m) => url_reading(s@) == Err::<(Seq<char>, Option<Seq<char>>), Seq<char>>(m@),
        },
{
    match url::Url::parse(s) {
        Ok(u) => {
            let host = match u.host_str() {
                Some(h) => Some(h.to_string()),
                None => None,
            };
            Ok((u.scheme().to_string(), host))
        },
        Err(e) => Err(e.to_string()),
    }
}

/// The hosts that files may be downloaded from.
pub open spec fn allowed_host(h: Seq<char>) -> bool {
    h == "www.ncei.noaa.gov"@ || h == "ncei.noaa.gov"@
}

/// Why a download target is refused before any request, or `None` where it is
/// an `https` URL on an allowed host.
pub open spec fn download_refusal(url: Seq<char>) -> Option<Seq<char>> {
    match url_reading(url) {
        Err(m) => Some("Invalid URL '"@ + url + "': "@ + m),
        Ok((scheme, host)) => if scheme != "https"@ {
            Some("URL must use HTTPS, got: "@ + url)
        } else {
            match host {
                None => Some("URL has no host: "@ + url),
                Some(h) => if allowed_host(h) {
                    None
                } else {
                    Some("Host '"@ + h + "' is not in allowed list"@)
                },
            }
        },
    }
}

/// Checks a download target: it must be an `https` URL on an allowed host.
pub fn validate_download_url(url: &str) -> (r: Result<()>)
    ensures
        match r {
            Ok(()) => download_refusal(url@) is None,
            Err(e) => download_refusal(url@) is Some && e is InvalidData && e->InvalidData_0@
                == download_refusal(url@)->0,
        },
{
    match parse_url(url) {
        Err(m) => {
            let mut msg = text("Invalid URL '");
            msg.append(url);
            msg.append("': ");
            msg.append(m.as_str());
            Err(AppError::InvalidData(msg))
        },
        Ok((scheme, host)) => {
            if !same_text(scheme.as_str(), "https") {
                let mut msg = text("URL must use HTTPS, got: ");
                msg.append(url);
                return Err(AppError::InvalidData(msg));
            }
            match host {
                None => {
                    let mut msg = text("URL has no host: ");
                    msg.append(url);
                    Err(AppError::InvalidData(msg))
                },
                Some(h) => {
                    if same_text(h.as_str(), "www.ncei.noaa.gov") || same_text(
                        h.as_str(),
                        "ncei.noaa.gov",
                    ) {
                        Ok(())
                    } else {
                        let mut msg = text("Host '");
                        msg.append(h.as_str());
                        msg.append("' is not in allowed list");
                        Err(AppError::InvalidData(msg))
                    }
                },
            }
        },
    }
}

// ------------------------------------------------------------------ retries

/// How many times a failed request is tried again.
pub const MAX_RETRIES: u32 = 3;

/// A failure worth another try: a timeout, a failed connection, or a server
/// error (HTTP 5xx).
pub open spec fn spec_is_retryable(e: AppError) -> bool {
    match e {
        AppError::Http(f) => f.timeout || f.connect || (f.status is Some && 500 <= f.status->0
            <= 599),
        _ => false,
    }
}

pub fn is_retryable(e: &AppError) -> (r: bool)
    ensures
        r == spec_is_retryable(*e),
{
    match e {
        AppError::Http(f) => f.timeout || f.connect || match f.status {
            Some(s) => 500 <= s && s <= 599,
            None => false,
        },
        _ => false,
    }
}

/// After the `failures`-th failure in a row, with error `e`: the seconds to
/// wait before the next try, or `None` to give up.
pub open spec fn retry_delay(failures: nat, max_retries: nat, e: AppError) -> Option<nat> {
    if failures > max_retries || !spec_is_retryable(e) {
        None
    } else {
        Some(pow2((failures - 1) as nat))
    }
}

/// The backoff decision after a failed attempt: wait `2^(failures-1)`
/// seconds and try again while the failure is retryable and at most
/// `max_retries` tries have failed; else give up.
pub fn next_retry_delay(failures: u32, max_retries: u32, e: &AppError) -> (r: Option<u64>)
    requires
        1 <= failures,
        max_retries <= 63,
    ensures
        match r {
            Some(d) => retry_delay(failures as nat, max_retries as nat, *e) == Some(d as nat),
            None => retry_delay(failures as nat, max_retries as nat, *e) is None,
        },
{
    if failures > max_retries || !is_retryable(e) {
        return None;
    }
    let mut d: u64 = 1;
    let mut i: u32 = 1;
    proof {
        lemma2_to64();
    }
    while i < failures
        invariant
            1 <= i <= failures <= 63,
            d == pow2((i - 1) as nat),
        decreases failures - i,
    {
        proof {
            lemma_pow2_unfold(i as nat);
            lemma2_to64();
            lemma_pow2_strictly_increases(i as nat, 64);
        }
        d = d * 2;
        i += 1;
    }
    Some(d)
}

} // verus!
