//! The section of a README that links the ecosystem's crates.

use vstd::prelude::*;
use vstd::string::*;

use crate::config::SuperworkConfig;
use crate::discover::Ecosystem;
use crate::text;
use crate::text_map::TextMap;

verus! {

broadcast use text::lemma_texts_push;

/// Build the map from crate to GitHub URL.
pub fn crate_urls(eco: &Ecosystem, config: &SuperworkConfig) -> (r: TextMap<String>)
    ensures
        forall|name: Seq<char>| #[trigger]
            r.has(name) <==> eco.crates.has(name) && config.url_of(eco.crates@[name].repo_dir@)
                is Some,
        forall|name: Seq<char>| #[trigger]
            r.has(name) ==> config.url_of(eco.crates@[name].repo_dir@) == Some(r@[name]@),
{
    let n: usize = eco.crates.len();
    let ghost keys = eco.crates.keys();
    let mut out: TextMap<String> = TextMap::new();
    let mut i: usize = 0;
    while i < n
        invariant
            i <= n,
            n == keys.len(),
            keys == eco.crates.keys(),
            forall|name: Seq<char>| #[trigger]
                out@.dom().contains(name) <==> keys.take(i as int).contains(name) && config.url_of(
                    eco.crates@[name].repo_dir@,
                ) is Some,
            forall|name: Seq<char>| #[trigger]
                out@.dom().contains(name) ==> config.url_of(eco.crates@[name].repo_dir@) == Some(
                    out@[name]@,
                ),
        decreases n - i,
    {
        let name = eco.crates.key_at(i);
        let info = eco.crates.value_at(i);
        proof {
            assert(keys.take(i + 1) =~= keys.take(i as int).push(name@));
            crate::group::lemma_push_contains(keys.take(i as int), name@);
        }
        if let Some(url) = config.github_url_for(info.repo_dir.as_str()) {
            out.insert(name.clone(), url);
        }
        i += 1;
    }
    assert(keys.take(n as int) =~= keys);
    assert forall|name: Seq<char>| #[trigger] out.has(name) == out@.dom().contains(name) by {}
    assert forall|name: Seq<char>| #[trigger] eco.crates.has(name) == keys.contains(name) by {}
    out
}

// ── Categories ──

pub open spec fn codecs() -> Seq<Seq<char>> {
    seq![
        "zenjpeg"@,
        "zenpng"@,
        "zenwebp"@,
        "zengif"@,
        "zenavif"@,
        "zenjxl"@,
        "zentiff"@,
        "zenbitmaps"@,
        "heic"@,
        "zenraw"@,
        "zenpdf"@,
        "ultrahdr"@,
        "jxl-encoder"@,
        "zenjxl-decoder"@,
        "rav1d-safe"@,
        "zenrav1e"@,
        "zenavif-parse"@,
        "zenavif-serialize"@,
        "mozjpeg-rs"@,
        "webpx"@,
    ]
}

pub open spec fn compression() -> Seq<Seq<char>> {
    seq!["zenflate"@, "zenzop"@, "zenzstd"@]
}

pub open spec fn processing() -> Seq<Seq<char>> {
    seq!["zenresize"@, "zenfilters"@, "zenquant"@, "zenblend"@]
}

pub open spec fn metrics() -> Seq<Seq<char>> {
    seq![
        "zensim"@,
        "fast-ssim2"@,
        "butteraugli"@,
        "resamplescope-rs"@,
        "codec-eval"@,
        "codec-corpus"@,
    ]
}

pub open spec fn pixels() -> Seq<Seq<char>> {
    seq!["zenpixels"@, "zenpixels-convert"@, "linear-srgb"@, "garb"@]
}

pub open spec fn pipeline() -> Seq<Seq<char>> {
    seq!["zenpipe"@, "zencodec"@, "zencodecs"@, "zenlayout"@, "zennode"@]
}

pub open spec fn infrastructure() -> Seq<Seq<char>> {
    seq!["archmage"@, "magetypes"@, "enough"@, "whereat"@, "zenbench"@, "cargo-copter"@]
}

/// The names that have a URL, as they are shown: the highlighted one bold, the others linked.
pub open spec fn cells(
    names: Seq<Seq<char>>,
    urls: Set<Seq<char>>,
    highlight: Option<Seq<char>>,
) -> Seq<Seq<char>>
    decreases names.len(),
{
    if names.len() == 0 {
        Seq::empty()
    } else {
        let before = cells(names.drop_last(), urls, highlight);
        let name = names.last();
        if !urls.contains(name) {
            before
        } else if highlight == Some(name) {
            before.push("**"@ + name + "**"@)
        } else {
            before.push("["@ + name + "]"@)
        }
    }
}

/// The names of a category in one line.
pub open spec fn listing(
    names: Seq<Seq<char>>,
    urls: Set<Seq<char>>,
    highlight: Option<Seq<char>>,
) -> Seq<char> {
    text::join(cells(names, urls, highlight), " · "@)
}

/// The table row of a category, where it has names with a URL.
pub open spec fn table_row(
    title: Seq<char>,
    names: Seq<Seq<char>>,
    urls: Set<Seq<char>>,
    highlight: Option<Seq<char>>,
) -> Seq<Seq<char>> {
    if cells(names, urls, highlight).len() == 0 {
        Seq::empty()
    } else {
        seq!["| "@ + title + " | "@ + listing(names, urls, highlight) + " |"@]
    }
}

/// The link references of the crates.
pub open spec fn references(keys: Seq<Seq<char>>, urls: Seq<Seq<char>>) -> Seq<Seq<char>> {
    Seq::new(keys.len(), |i: int| "["@ + keys[i] + "]: "@ + urls[i])
}

pub open spec fn infrastructure_lines(
    urls: Set<Seq<char>>,
    highlight: Option<Seq<char>>,
) -> Seq<Seq<char>> {
    if cells(infrastructure(), urls, highlight).len() == 0 {
        Seq::empty()
    } else {
        seq![
            "### General Rust awesomeness"@,
            ""@,
            listing(infrastructure(), urls, highlight),
            ""@,
        ]
    }
}

pub open spec fn closing_lines() -> Seq<Seq<char>> {
    seq![
        "[Imageflow]: https://github.com/imazen/imageflow"@,
        "[Imageflow Server]: https://github.com/imazen/imageflow-server"@,
        "[imageflow-dotnet]: https://github.com/imazen/imageflow-dotnet"@,
        "[imageflow-node]: https://github.com/imazen/imageflow-node"@,
        "[imageflow-go]: https://github.com/imazen/imageflow-go"@,
        "[ImageResizer]: https://github.com/imazen/resizer"@,
    ]
}

/// The whole section, line by line.
pub open spec fn section(
    keys: Seq<Seq<char>>,
    values: Seq<Seq<char>>,
    highlight: Option<Seq<char>>,
) -> Seq<Seq<char>> {
    let urls = keys.to_set();
    seq!["## Image tech I maintain"@, ""@, "| | |"@, "|:--|:--|"@] + table_row(
        "State of the art codecs"@,
        codecs(),
        urls,
        highlight,
    ) + table_row("Compression"@, compression(), urls, highlight) + table_row(
        "Processing"@,
        processing(),
        urls,
        highlight,
    ) + table_row("Metrics"@, metrics(), urls, highlight) + table_row(
        "Pixel types & color"@,
        pixels(),
        urls,
        highlight,
    ) + table_row("Pipeline"@, pipeline(), urls, highlight) + seq![
        "| ImageResizer | [ImageResizer] (C#) — 24M+ NuGet downloads across all packages |"@,
        "| [Imageflow][] | Image optimization engine (Rust) — [.NET][imageflow-dotnet] · [node][imageflow-node] · [go][imageflow-go] — 9M+ NuGet downloads |"@,
        "| [Imageflow Server][] | [The fast, safe image server](https://www.imazen.io/) (Rust+C#) — 552K+ NuGet downloads |"@,
        ""@,
    ] + infrastructure_lines(urls, highlight) + seq![
        "[And other projects](https://www.imazen.io/open-source) · [GitHub @imazen](https://github.com/imazen) · [GitHub @lilith](https://github.com/lilith) · [lib.rs/~lilith](https://lib.rs/~lilith) · [NuGet](https://www.nuget.org/profiles/imazen) (over 30 million downloads / 87 packages)"@,
        ""@,
    ] + references(keys, values) + closing_lines()
}

fn add_name(
    out: &mut Vec<String>,
    name: &str,
    urls: &TextMap<String>,
    highlight: Option<&str>,
    names: Ghost<Seq<Seq<char>>>,
)
    requires
        text::texts(old(out)@) == cells(names@, urls.keys().to_set(), plain(highlight)),
    ensures
        text::texts(final(out)@) == cells(
            names@.push(name@),
            urls.keys().to_set(),
            plain(highlight),
        ),
{
    proof {
        assert(names@.push(name@).drop_last() =~= names@);
        assert(urls.has(name@) == urls.keys().to_set().contains(name@));
    }
    if urls.contains_key(name) {
        let bold = match highlight {
            Some(h) => text::same(h, name),
            None => false,
        };
        if bold {
            out.push(text::cat3("**", name, "**"));
        } else {
            out.push(text::cat3("[", name, "]"));
        }
    }
}

/// A text behind a reference that may be missing.
pub open spec fn plain(s: Option<&str>) -> Option<Seq<char>> {
    match s {
        Some(t) => Some(t@),
        None => None,
    }
}

fn show_names(names: &Vec<&str>, urls: &TextMap<String>, highlight: Option<&str>) -> (r: Vec<
    String,
>)
    ensures
        text::texts(r@) == cells(
            names@.map_values(|s: &str| s@),
            urls.keys().to_set(),
            plain(highlight),
        ),
{
    let ghost all = names@.map_values(|s: &str| s@);
    let mut out: Vec<String> = Vec::new();
    let mut i: usize = 0;
    assert(all.take(0) =~= Seq::<Seq<char>>::empty());
    assert(text::texts(out@) =~= Seq::<Seq<char>>::empty());
    while i < names.len()
        invariant
            i <= names.len(),
            all == names@.map_values(|s: &str| s@),
            text::texts(out@) == cells(
                all.take(i as int),
                urls.keys().to_set(),
                plain(highlight),
            ),
        decreases names.len() - i,
    {
        assert(all.take(i + 1) =~= all.take(i as int).push(names@[i as int]@));
        add_name(&mut out, names[i], urls, highlight, Ghost(all.take(i as int)));
        i += 1;
    }
    assert(all.take(i as int) =~= all);
    out
}

fn add_row(
    out: &mut Vec<String>,
    title: &str,
    names: &Vec<&str>,
    urls: &TextMap<String>,
    highlight: Option<&str>,
)
    ensures
        text::texts(final(out)@) == text::texts(old(out)@) + table_row(
            title@,
            names@.map_values(|s: &str| s@),
            urls.keys().to_set(),
            plain(highlight),
        ),
{
    let ghost before = text::texts(out@);
    let shown = show_names(names, urls, highlight);
    assert(text::texts(shown@).len() == shown.len());
    if shown.len() > 0 {
        let list = text::join_with(&shown, " · ");
        let mut row = text::cat4("| ", title, " | ", list.as_str());
        row.append(" |");
        out.push(row);
        assert(text::texts(out@) =~= before + seq![row@]);
    } else {
        assert(text::texts(out@) =~= before + Seq::<Seq<char>>::empty());
    }
}

fn add_line(out: &mut Vec<String>, line: &str)
    ensures
        text::texts(final(out)@) == text::texts(old(out)@).push(line@),
{
    out.push(line.to_string());
}

fn add_table(out: &mut Vec<String>, urls: &TextMap<String>, highlight: Option<&str>)
    ensures
        text::texts(final(out)@) == text::texts(old(out)@) + table_row(
            "State of the art codecs"@,
            codecs(),
            urls.keys().to_set(),
            plain(highlight),
        ) + table_row("Compression"@, compression(), urls.keys().to_set(), plain(highlight))
            + table_row("Processing"@, processing(), urls.keys().to_set(), plain(highlight))
            + table_row("Metrics"@, metrics(), urls.keys().to_set(), plain(highlight)) + table_row(
            "Pixel types & color"@,
            pixels(),
            urls.keys().to_set(),
            plain(highlight),
        ) + table_row("Pipeline"@, pipeline(), urls.keys().to_set(), plain(highlight)),
{
    let names: Vec<&str> = vec![
        "zenjpeg",
        "zenpng",
        "zenwebp",
        "zengif",
        "zenavif",
        "zenjxl",
        "zentiff",
        "zenbitmaps",
        "heic",
        "zenraw",
        "zenpdf",
        "ultrahdr",
        "jxl-encoder",
        "zenjxl-decoder",
        "rav1d-safe",
        "zenrav1e",
        "zenavif-parse",
        "zenavif-serialize",
        "mozjpeg-rs",
        "webpx",
    ];
    assert(names@.map_values(|s: &str| s@) =~= codecs());
    add_row(out, "State of the art codecs", &names, urls, highlight);
    let names: Vec<&str> = vec!["zenflate", "zenzop", "zenzstd"];
    assert(names@.map_values(|s: &str| s@) =~= compression());
    add_row(out, "Compression", &names, urls, highlight);
    let names: Vec<&str> = vec!["zenresize", "zenfilters", "zenquant", "zenblend"];
    assert(names@.map_values(|s: &str| s@) =~= processing());
    add_row(out, "Processing", &names, urls, highlight);
    let names: Vec<&str> = vec![
        "zensim",
        "fast-ssim2",
        "butteraugli",
        "resamplescope-rs",
        "codec-eval",
        "codec-corpus",
    ];
    assert(names@.map_values(|s: &str| s@) =~= metrics());
    add_row(out, "Metrics", &names, urls, highlight);
    let names: Vec<&str> = vec!["zenpixels", "zenpixels-convert", "linear-srgb", "garb"];
    assert(names@.map_values(|s: &str| s@) =~= pixels());
    add_row(out, "Pixel types & color", &names, urls, highlight);
    let names: Vec<&str> = vec!["zenpipe", "zencodec", "zencodecs", "zenlayout", "zennode"];
    assert(names@.map_values(|s: &str| s@) =~= pipeline());
    add_row(out, "Pipeline", &names, urls, highlight);
}

fn add_infrastructure(out: &mut Vec<String>, urls: &TextMap<String>, highlight: Option<&str>)
    ensures
        text::texts(final(out)@) == text::texts(old(out)@) + infrastructure_lines(
            urls.keys().to_set(),
            plain(highlight),
        ),
{
    let ghost before = text::texts(out@);
    let names: Vec<&str> = vec![
        "archmage",
        "magetypes",
        "enough",
        "whereat",
        "zenbench",
        "cargo-copter",
    ];
    assert(names@.map_values(|s: &str| s@) =~= infrastructure());
    let shown = show_names(&names, urls, highlight);
    assert(text::texts(shown@).len() == shown.len());
    if shown.len() > 0 {
        let list = text::join_with(&shown, " · ");
        add_line(out, "### General Rust awesomeness");
        add_line(out, "");
        add_line(out, list.as_str());
        add_line(out, "");
        assert(text::texts(out@) =~= before + infrastructure_lines(
            urls.keys().to_set(),
            plain(highlight),
        ));
    } else {
        assert(text::texts(out@) =~= before + Seq::<Seq<char>>::empty());
    }
}

fn add_references(out: &mut Vec<String>, urls: &TextMap<String>)
    ensures
        text::texts(final(out)@) == text::texts(old(out)@) + references(
            urls.keys(),
            text::texts(urls.values()),
        ),
{
    let ghost before = text::texts(out@);
    let ghost all = references(urls.keys(), text::texts(urls.values()));
    let n: usize = urls.len();
    let mut i: usize = 0;
    assert(text::texts(out@) =~= before + all.take(0));
    while i < n
        invariant
            i <= n,
            n == urls.keys().len(),
            n == urls.values().len(),
            all == references(urls.keys(), text::texts(urls.values())),
            text::texts(out@) == before + all.take(i as int),
        decreases n - i,
    {
        let name = urls.key_at(i);
        let url = urls.value_at(i);
        let line = text::cat4("[", name.as_str(), "]: ", url.as_str());
        assert(text::texts(urls.values())[i as int] == url@);
        assert(all[i as int] == line@);
        out.push(line);
        assert(before + all.take(i + 1) =~= (before + all.take(i as int)).push(line@));
        i += 1;
    }
    assert(all.take(n as int) =~= all);
}

/// Generate the ecosystem links section. If `highlight` is given, that crate is bolded.
pub fn render_links(urls: &TextMap<String>, highlight: Option<&str>) -> (r: Vec<String>)
    ensures
        text::texts(r@) == section(urls.keys(), text::texts(urls.values()), plain(highlight)),
{
    let mut out: Vec<String> = Vec::new();
    add_line(&mut out, "## Image tech I maintain");
    add_line(&mut out, "");
    add_line(&mut out, "| | |");
    add_line(&mut out, "|:--|:--|");
    assert(text::texts(out@) =~= seq![
        "## Image tech I maintain"@,
        ""@,
        "| | |"@,
        "|:--|:--|"@,
    ]);
    add_table(&mut out, urls, highlight);
    let ghost a = text::texts(out@);
    add_line(
        &mut out,
        "| ImageResizer | [ImageResizer] (C#) — 24M+ NuGet downloads across all packages |",
    );
    add_line(
        &mut out,
        "| [Imageflow][] | Image optimization engine (Rust) — [.NET][imageflow-dotnet] · [node][imageflow-node] · [go][imageflow-go] — 9M+ NuGet downloads |",
    );
    add_line(
        &mut out,
        "| [Imageflow Server][] | [The fast, safe image server](https://www.imazen.io/) (Rust+C#) — 552K+ NuGet downloads |",
    );
    add_line(&mut out, "");
    add_infrastructure(&mut out, urls, highlight);
    add_line(
        &mut out,
        "[And other projects](https://www.imazen.io/open-source) · [GitHub @imazen](https://github.com/imazen) · [GitHub @lilith](https://github.com/lilith) · [lib.rs/~lilith](https://lib.rs/~lilith) · [NuGet](https://www.nuget.org/profiles/imazen) (over 30 million downloads / 87 packages)",
    );
    add_line(&mut out, "");
    add_references(&mut out, urls);
    add_line(&mut out, "[Imageflow]: https://github.com/imazen/imageflow");
    add_line(&mut out, "[Imageflow Server]: https://github.com/imazen/imageflow-server");
    add_line(&mut out, "[imageflow-dotnet]: https://github.com/imazen/imageflow-dotnet");
    add_line(&mut out, "[imageflow-node]: https://github.com/imazen/imageflow-node");
    add_line(&mut out, "[imageflow-go]: https://github.com/imazen/imageflow-go");
    add_line(&mut out, "[ImageResizer]: https://github.com/imazen/resizer");
    assert(text::texts(out@) =~= section(
        urls.keys(),
        text::texts(urls.values()),
        plain(highlight),
    ));
    out
}

/// Each name of a category with a URL is shown, in order: the highlighted one bold, the others
/// linked.
pub proof fn law_linked_names(
    names: Seq<Seq<char>>,
    urls: Set<Seq<char>>,
    highlight: Option<Seq<char>>,
)
    ensures
        cells(names, urls, highlight) == names.filter(
            |name: Seq<char>| urls.contains(name),
        ).map_values(
            |name: Seq<char>| if highlight == Some(name) {
                "**"@ + name + "**"@
            } else {
                "["@ + name + "]"@
            },
        ),
    decreases names.len(),
{
    reveal(Seq::filter);
    if names.len() > 0 {
        law_linked_names(names.drop_last(), urls, highlight);
    }
}

/// A category has a row exactly where one of its names has a URL.
pub proof fn law_rows_of_categories(
    title: Seq<char>,
    names: Seq<Seq<char>>,
    urls: Set<Seq<char>>,
    highlight: Option<Seq<char>>,
)
    ensures
        table_row(title, names, urls, highlight).len() == if exists|i: int|
            0 <= i < names.len() && urls.contains(#[trigger] names[i]) {
            1int
        } else {
            0
        },
        table_row(title, names, urls, highlight).len() == 1 ==> table_row(
            title,
            names,
            urls,
            highlight,
        )[0] == "| "@ + title + " | "@ + text::join(cells(names, urls, highlight), " · "@) + " |"@,
{
    lemma_cells_are_there(names, urls, highlight);
}

proof fn lemma_cells_are_there(
    names: Seq<Seq<char>>,
    urls: Set<Seq<char>>,
    highlight: Option<Seq<char>>,
)
    ensures
        cells(names, urls, highlight).len() > 0 <==> exists|i: int|
            0 <= i < names.len() && urls.contains(#[trigger] names[i]),
    decreases names.len(),
{
    if names.len() > 0 {
        let rest = names.drop_last();
        lemma_cells_are_there(rest, urls, highlight);
        assert(names[names.len() - 1] == names.last());
        assert forall|i: int| 0 <= i < rest.len() implies rest[i] == names[i] by {}
    }
}

/// Every crate with a URL gets a link reference in the section, whether or not a category names it.
pub proof fn law_every_url_is_referenced(
    keys: Seq<Seq<char>>,
    values: Seq<Seq<char>>,
    highlight: Option<Seq<char>>,
    i: int,
)
    requires
        0 <= i < keys.len(),
    ensures
        section(keys, values, highlight).contains("["@ + keys[i] + "]: "@ + values[i]),
{
    let all = section(keys, values, highlight);
    let at = all.len() - closing_lines().len() - references(keys, values).len() + i;
    assert(references(keys, values)[i] == "["@ + keys[i] + "]: "@ + values[i]);
    assert(all[at] == references(keys, values)[i]);
}

} // verus!
