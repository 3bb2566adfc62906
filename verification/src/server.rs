//! What the local pages are answered with.

use crate::number::Real;
use crate::rank;
use crate::text;
use vstd::prelude::*;
use vstd::string::*;

verus! {

/// A page that is answered.
pub struct PageReply {
    pub status: u16,
    pub headers: Vec<(String, String)>,
    pub body: String,
}

/// A page that is answered, by characters.
pub struct PageReplyView {
    pub status: u16,
    pub headers: Seq<(Seq<char>, Seq<char>)>,
    pub body: Seq<char>,
}

impl View for PageReply {
    type V = PageReplyView;

    open spec fn view(&self) -> PageReplyView {
        PageReplyView {
            status: self.status,
            headers: text::text_pairs(self.headers@),
            body: self.body@,
        }
    }
}

/// The answer where there is nothing: a plain text.
pub open spec fn nothing_here(body: Seq<char>) -> PageReplyView {
    PageReplyView {
        status: 404,
        headers: seq![("content-type"@, "text/plain; charset=utf-8"@)],
        body,
    }
}

/// The answer with a page, which browsers are not to keep.
pub open spec fn page_reply(body: Seq<char>) -> PageReplyView {
    PageReplyView {
        status: 200,
        headers: seq![
            ("content-type"@, "text/html; charset=utf-8"@),
            ("cache-control"@, "no-cache, no-store, must-revalidate"@),
            ("pragma"@, "no-cache"@),
        ],
        body,
    }
}

/// The answer with a style, which browsers are to ask for again.
pub open spec fn style_reply(body: Seq<char>) -> PageReplyView {
    PageReplyView {
        status: 200,
        headers: seq![
            ("content-type"@, "text/css; charset=utf-8"@),
            ("cache-control"@, "no-cache"@),
        ],
        body,
    }
}

fn reply_nothing(body: String) -> (r: PageReply)
    ensures
        r@ == nothing_here(body@),
{
    let mut headers: Vec<(String, String)> = Vec::new();
    text::push_pair(&mut headers, "content-type", "text/plain; charset=utf-8");
    let r = PageReply { status: 404, headers, body };
    assert(r@.headers =~= nothing_here(body@).headers);
    r
}

fn reply_page(body: String) -> (r: PageReply)
    ensures
        r@ == page_reply(body@),
{
    let mut headers: Vec<(String, String)> = Vec::new();
    text::push_pair(&mut headers, "content-type", "text/html; charset=utf-8");
    text::push_pair(&mut headers, "cache-control", "no-cache, no-store, must-revalidate");
    text::push_pair(&mut headers, "pragma", "no-cache");
    let r = PageReply { status: 200, headers, body };
    assert(r@.headers =~= page_reply(body@).headers);
    r
}

/// Where the pages come from, and where they are looked for.
pub open spec fn missing_page(view: Seq<char>, dir: Seq<char>) -> Seq<char> {
    "未找到 web/"@ + view
        + ".html\n页面源码在仓库 web/ 目录, 程序按 exe 同级 web/ 优先、逐级向上查找。当前查找目录: "@
        + dir
}

/// The reference to the style of a page.
pub open spec fn style_link(view: Seq<char>) -> Seq<char> {
    "<link rel=\"stylesheet\" href=\"/"@ + view + ".css\">\n</head>"@
}

/// A page: the file as it is, with a reference to its style where it has one.
pub open spec fn page_body(html: Seq<char>, view: Seq<char>, styled: bool) -> Seq<char> {
    if styled {
        text::replaced(html, "</head>"@, style_link(view))
    } else {
        html
    }
}

/// Answers with a page. `html` is the file of the page, where there is one; `styled` tells whether
/// there is a style of the same name.
pub fn html_page(view: &str, html: Option<String>, styled: bool, dir: &str) -> (r: PageReply)
    ensures
        match html {
            Some(h) => r@ == page_reply(page_body(h@, view@, styled)),
            None => r@ == nothing_here(missing_page(view@, dir@)),
        },
{
    match html {
        Some(h) => {
            if !styled {
                return reply_page(h);
            }
            let mut link = "<link rel=\"stylesheet\" href=\"/".to_owned();
            link.append(view);
            link.append(".css\">\n</head>");
            proof {
                reveal_strlit("</head>");
            }
            reply_page(text::replace(h.as_str(), "</head>", link.as_str()))
        },
        None => {
            let mut body = "未找到 web/".to_owned();
            body.append(view);
            body.append(
                ".html\n页面源码在仓库 web/ 目录, 程序按 exe 同级 web/ 优先、逐级向上查找。当前查找目录: ",
            );
            body.append(dir);
            reply_nothing(body)
        },
    }
}

/// A character that may stand in the name of a style.
pub open spec fn is_name_char(c: char) -> bool {
    text::is_ascii_letter(c) || text::is_digit(c) || c == '_' || c == '-' || c == '.'
}

/// The name of a style: of a file in the directory of the pages, and of nothing else.
pub open spec fn is_style_name(name: Seq<char>) -> bool {
    &&& text::has_suffix(name, ".css"@)
    &&& !text::has_text(name, ".."@)
    &&& forall|i: int| 0 <= i < name.len() ==> is_name_char(#[trigger] name[i])
}

/// Whether a name is the name of a style.
pub fn style_name(name: &str) -> (r: bool)
    ensures
        r == is_style_name(name@),
{
    if !text::ends_with(name, ".css") || text::contains(name, "..") {
        return false;
    }
    let cs = text::chars_of(name);
    let mut i: usize = 0;
    while i < cs.len()
        invariant
            i <= cs@.len(),
            cs@ == name@,
            forall|j: int| 0 <= j < i ==> is_name_char(#[trigger] cs@[j]),
        decreases cs@.len() - i,
    {
        let c = cs[i];
        if !(text::ascii_letter(c) || text::digit(c) || c == '_' || c == '-' || c == '.') {
            assert(!is_name_char(name@[i as int]));
            return false;
        }
        i += 1;
    }
    true
}

/// Answers with a style. `css` is the file of that name, where there is one.
pub fn web_css(name: &str, css: Option<String>) -> (r: PageReply)
    ensures
        r@ == (match css {
            Some(c) if is_style_name(name@) => style_reply(c@),
            _ => nothing_here("not found"@),
        }),
{
    match css {
        Some(c) => {
            if !style_name(name) {
                return reply_nothing("not found".to_owned());
            }
            let mut headers: Vec<(String, String)> = Vec::new();
            text::push_pair(&mut headers, "content-type", "text/css; charset=utf-8");
            text::push_pair(&mut headers, "cache-control", "no-cache");
            let r = PageReply { status: 200, headers, body: c };
            assert(r@.headers =~= style_reply(c@).headers);
            r
        },
        None => reply_nothing("not found".to_owned()),
    }
}

/// The name of a style leads to no other directory.
pub proof fn law_style_stays_in_its_directory(name: Seq<char>)
    requires
        is_style_name(name),
    ensures
        !name.contains('/'),
        !name.contains('\\'),
        !name.contains(':'),
{
    if name.contains('/') {
        let i = choose|i: int| 0 <= i < name.len() && name[i] == '/';
        assert(is_name_char(name[i]));
    }
    if name.contains('\\') {
        let i = choose|i: int| 0 <= i < name.len() && name[i] == '\\';
        assert(is_name_char(name[i]));
    }
    if name.contains(':') {
        let i = choose|i: int| 0 <= i < name.len() && name[i] == ':';
        assert(is_name_char(name[i]));
    }
}

/// What kind of file a picture is.
#[derive(Clone, Copy, PartialEq, Eq, Structural, Debug)]
pub enum AssetKind {
    Svg,
    Png,
}

/// The pictures of the ranks.
pub open spec fn asset_kind_of(name: Seq<char>) -> Option<AssetKind> {
    if name == "ABC_bg.svg"@ || name == "S.svg"@ || name == "A.svg"@ || name == "A1.svg"@ || name
        == "B.svg"@ || name == "B1.svg"@ || name == "C.svg"@ || name == "C1.svg"@ || name
        == "D.svg"@ || name == "D1.svg"@ || name == "A11.svg"@ || name == "B11.svg"@ || name
        == "C11.svg"@ || name == "A11_bg.svg"@ || name == "B11_bg.svg"@ || name == "C11_bg.svg"@
        || name == "star.svg"@ {
        Some(AssetKind::Svg)
    } else if name == "s-brass-s21.png"@ || name == "s-silver-1.png"@ || name == "s-gold-1.png"@
        || name == "s-diamond-1.png"@ {
        Some(AssetKind::Png)
    } else {
        None
    }
}

fn among(name: &str, list: &Vec<&'static str>) -> (r: bool)
    ensures
        r == (exists|i: int| 0 <= i < list@.len() && name@ == (#[trigger] list@[i])@),
{
    let mut i: usize = 0;
    while i < list.len()
        invariant
            i <= list@.len(),
            forall|j: int| 0 <= j < i ==> name@ != (#[trigger] list@[j])@,
        decreases list@.len() - i,
    {
        if text::same(name, list[i]) {
            return true;
        }
        i += 1;
    }
    false
}

/// Finds a picture of the ranks by its name.
pub fn asset_kind(name: &str) -> (r: Option<AssetKind>)
    ensures
        r == asset_kind_of(name@),
{
    let svg: Vec<&'static str> =
        vec!["ABC_bg.svg", "S.svg", "A.svg", "A1.svg", "B.svg", "B1.svg", "C.svg", "C1.svg",
        "D.svg", "D1.svg", "A11.svg", "B11.svg", "C11.svg", "A11_bg.svg", "B11_bg.svg",
        "C11_bg.svg", "star.svg"];
    let png: Vec<&'static str> =
        vec!["s-brass-s21.png", "s-silver-1.png", "s-gold-1.png", "s-diamond-1.png"];
    proof {
        let s = svg@;
        assert(s.len() == 17);
        assert(s[0]@ == "ABC_bg.svg"@ && s[1]@ == "S.svg"@ && s[2]@ == "A.svg"@ && s[3]@
            == "A1.svg"@ && s[4]@ == "B.svg"@ && s[5]@ == "B1.svg"@ && s[6]@ == "C.svg"@ && s[7]@
            == "C1.svg"@ && s[8]@ == "D.svg"@ && s[9]@ == "D1.svg"@ && s[10]@ == "A11.svg"@
            && s[11]@ == "B11.svg"@ && s[12]@ == "C11.svg"@ && s[13]@ == "A11_bg.svg"@ && s[14]@
            == "B11_bg.svg"@ && s[15]@ == "C11_bg.svg"@ && s[16]@ == "star.svg"@);
        let p = png@;
        assert(p.len() == 4);
        assert(p[0]@ == "s-brass-s21.png"@ && p[1]@ == "s-silver-1.png"@ && p[2]@
            == "s-gold-1.png"@ && p[3]@ == "s-diamond-1.png"@);
    }
    if among(name, &svg) {
        Some(AssetKind::Svg)
    } else if among(name, &png) {
        Some(AssetKind::Png)
    } else {
        None
    }
}

/// `icon` is the address under which the picture `name` is served.
pub open spec fn serves(icon: Seq<char>, name: Seq<char>) -> bool {
    icon == "/assets/"@ + name && asset_kind_of(name) is Some
}

/// The icon of every tier is a picture that is served; of a score without a tier there is none.
pub proof fn law_icon_of_every_tier_is_served(score: Real)
    ensures
        score.is_finite() && score.scaled() > 0 ==> exists|name: Seq<char>|
            serves(rank::icon_of(rank::plain_label(rank::label_of_score(score))), name),
        !(score.is_finite() && score.scaled() > 0) ==> rank::icon_of(
            rank::plain_label(rank::label_of_score(score)),
        ) == ""@,
{
    let label = rank::label_of_score(score);
    let icon = rank::icon_of(rank::plain_label(label));
    reveal_strlit("");
    reveal_strlit("/assets/");
    reveal_strlit(".svg");
    if !score.is_finite() {
        assert(rank::plain_label(label) =~= ""@);
    } else if score.scaled() <= 0 {
        rank::lemma_icon_of_label(label);
    } else {
        rank::lemma_icon_of_label(label);
        let name = if label == "D"@ {
            "D.svg"@
        } else if label == "C"@ {
            "C.svg"@
        } else if label == "C+"@ {
            "C1.svg"@
        } else if label == "精英C+"@ {
            "C11.svg"@
        } else if label == "B"@ {
            "B.svg"@
        } else if label == "B+"@ {
            "B1.svg"@
        } else if label == "精英B+"@ {
            "B11.svg"@
        } else if label == "A"@ {
            "A.svg"@
        } else if label == "A+"@ {
            "A1.svg"@
        } else if label == "精英A+"@ {
            "A11.svg"@
        } else {
            "s-diamond-1.png"@
        };
        reveal_strlit("未定");
        reveal_strlit("D");
        reveal_strlit("C");
        reveal_strlit("C+");
        reveal_strlit("精英C+");
        reveal_strlit("B");
        reveal_strlit("B+");
        reveal_strlit("精英B+");
        reveal_strlit("A");
        reveal_strlit("A+");
        reveal_strlit("精英A+");
        reveal_strlit("S 段");
        assert(label == "D"@ || label == "C"@ || label == "C+"@ || label == "精英C+"@ || label
            == "B"@ || label == "B+"@ || label == "精英B+"@ || label == "A"@ || label == "A+"@
            || label == "精英A+"@ || label == "S 段"@);
        reveal_strlit("1");
        reveal_strlit("11");
        reveal_strlit("D.svg");
        reveal_strlit("C.svg");
        reveal_strlit("C1.svg");
        reveal_strlit("C11.svg");
        reveal_strlit("B.svg");
        reveal_strlit("B1.svg");
        reveal_strlit("B11.svg");
        reveal_strlit("A.svg");
        reveal_strlit("A1.svg");
        reveal_strlit("A11.svg");
        reveal_strlit("s-diamond-1.png");
        reveal_strlit("/assets/s-diamond-1.png");
        assert(icon =~= "/assets/"@ + name);
        assert(serves(icon, name));
    }
}

/// The type of a picture, as browsers name it.
pub fn content_type(kind: AssetKind) -> (r: &'static str)
    ensures
        r@ == (match kind {
            AssetKind::Svg => "image/svg+xml; charset=utf-8"@,
            AssetKind::Png => "image/png"@,
        }),
{
    match kind {
        AssetKind::Svg => "image/svg+xml; charset=utf-8",
        AssetKind::Png => "image/png",
    }
}

/// The port on which the pages were offered last.
pub struct PortLoop {
    pub last: u16,
}

impl PortLoop {
    /// No port was tried yet.
    pub fn new() -> (r: PortLoop)
        ensures
            r.last == 0,
    {
        PortLoop { last: 0 }
    }

    /// The port to offer the pages on; none where that was tried last, and a change has to be
    /// waited for.
    pub fn next(&mut self, port: u16) -> (r: Option<u16>)
        ensures
            r == (if port == old(self).last {
                None
            } else {
                Some(port)
            }),
            final(self).last == port,
    {
        if port == self.last {
            return None;
        }
        self.last = port;
        Some(port)
    }

    /// Whether a configuration moves the pages to another port; nothing else in it does.
    pub fn moved(&self, port: u16) -> (r: bool)
        ensures
            r == (port != self.last),
    {
        port != self.last
    }
}

/// A page without a style of its own is sent as it is; one with a style gets a link to it before
/// the end of its head, and nothing else changes.
pub proof fn law_style_is_linked_in_the_head(view: Seq<char>, before: Seq<char>, after: Seq<char>)
    requires
        !text::has_text(after, "</head>"@),
        forall|i: int|
            0 <= i < before.len() ==> !text::occurs_at(
                before + "</head>"@ + after,
                "</head>"@,
                i,
            ),
    ensures
        page_body(before + "</head>"@ + after, view, false) == before + "</head>"@ + after,
        page_body(before + "</head>"@ + after, view, true) == before + (
        "<link rel=\"stylesheet\" href=\"/"@ + view + ".css\">\n</head>"@) + after,
{
    reveal_strlit("</head>");
    assert("</head>"@.len() == 7);
    text::law_first_copy_is_replaced(before, "</head>"@, after, style_link(view));
    text::law_nothing_to_replace(after, "</head>"@, style_link(view));
}

/// A page without a head is sent as it is, with a style or without.
pub proof fn law_page_without_head_stays(html: Seq<char>, view: Seq<char>, styled: bool)
    requires
        !text::has_text(html, "</head>"@),
    ensures
        page_body(html, view, styled) == html,
{
    text::law_nothing_to_replace(html, "</head>"@, style_link(view));
}

/// A page and a style are answered with success, and browsers are told not to keep a page; what is
/// missing is answered with 404, and a missing page names itself and where it was looked for.
pub proof fn law_replies_carry_their_status(body: Seq<char>, view: Seq<char>, dir: Seq<char>)
    ensures
        page_reply(body).status == 200,
        page_reply(body).body == body,
        page_reply(body).headers.contains(
            ("cache-control"@, "no-cache, no-store, must-revalidate"@),
        ),
        page_reply(body).headers.contains(("pragma"@, "no-cache"@)),
        page_reply(body).headers.contains(("content-type"@, "text/html; charset=utf-8"@)),
        style_reply(body).status == 200,
        style_reply(body).body == body,
        style_reply(body).headers.contains(("content-type"@, "text/css; charset=utf-8"@)),
        style_reply(body).headers.contains(("cache-control"@, "no-cache"@)),
        nothing_here(body).status == 404,
        nothing_here(body).body == body,
        text::has_prefix(missing_page(view, dir), "未找到 web/"@ + view + ".html\n"@),
        text::has_suffix(missing_page(view, dir), dir),
{
    let h = page_reply(body).headers;
    assert(h[0] == ("content-type"@, "text/html; charset=utf-8"@));
    assert(h[1] == ("cache-control"@, "no-cache, no-store, must-revalidate"@));
    assert(h[2] == ("pragma"@, "no-cache"@));
    let c = style_reply(body).headers;
    assert(c[0] == ("content-type"@, "text/css; charset=utf-8"@));
    assert(c[1] == ("cache-control"@, "no-cache"@));
    let all = missing_page(view, dir);
    assert(all.skip(all.len() - dir.len()) =~= dir);
    reveal_strlit(".html\n");
    reveal_strlit(
        ".html\n页面源码在仓库 web/ 目录, 程序按 exe 同级 web/ 优先、逐级向上查找。当前查找目录: ",
    );
    let head = "未找到 web/"@ + view + ".html\n"@;
    assert(all.take(head.len() as int) =~= head);
}

/// Every name of letters, digits, underscores and hyphens with the ending of a style is that of a
/// style; a name with two dots in a row, or with another ending, is not.
pub proof fn law_styles_go_by_plain_names(base: Seq<char>, name: Seq<char>)
    ensures
        (forall|i: int|
            0 <= i < base.len() ==> 'a' <= #[trigger] base[i] <= 'z' || 'A' <= base[i] <= 'Z' || '0'
                <= base[i] <= '9' || base[i] == '_' || base[i] == '-') ==> is_style_name(
            base + ".css"@,
        ),
        !text::has_suffix(name, ".css"@) || text::has_text(name, ".."@) ==> !is_style_name(name),
{
    reveal_strlit(".css");
    reveal_strlit("..");
    let all = base + ".css"@;
    assert(all.skip(base.len() as int) =~= ".css"@);
    if forall|i: int|
        0 <= i < base.len() ==> 'a' <= #[trigger] base[i] <= 'z' || 'A' <= base[i] <= 'Z' || '0'
            <= base[i] <= '9' || base[i] == '_' || base[i] == '-' {
        assert forall|i: int| 0 <= i < all.len() implies is_name_char(#[trigger] all[i]) by {
            if i < base.len() {
                assert(all[i] == base[i]);
            } else {
                assert(all[i] == ".css"@[i - base.len()]);
            }
        }
        if text::has_text(all, ".."@) {
            let i = choose|i: int| text::occurs_at(all, ".."@, i);
            assert(all.subrange(i, i + 2)[0] == all[i]);
            assert(all.subrange(i, i + 2)[1] == all[i + 1]);
            assert(".."@[0] == '.' && ".."@[1] == '.');
            if i < base.len() {
                assert(base[i] == '.');
            } else {
                assert(all[i + 1] == ".css"@[i + 1 - base.len()]);
            }
        }
    }
}

/// Pictures go by their endings, and every picture of the badges is there: letters, shields, the
/// star and the diamonds.
pub proof fn law_pictures_go_by_their_endings(name: Seq<char>)
    ensures
        asset_kind_of(name) == Some(AssetKind::Svg) ==> text::has_suffix(name, ".svg"@),
        asset_kind_of(name) == Some(AssetKind::Png) ==> text::has_suffix(name, ".png"@),
        asset_kind_of("ABC_bg.svg"@) == Some(AssetKind::Svg),
        asset_kind_of("A11_bg.svg"@) == Some(AssetKind::Svg),
        asset_kind_of("B11_bg.svg"@) == Some(AssetKind::Svg),
        asset_kind_of("C11_bg.svg"@) == Some(AssetKind::Svg),
        asset_kind_of("S.svg"@) == Some(AssetKind::Svg),
        asset_kind_of("D1.svg"@) == Some(AssetKind::Svg),
        asset_kind_of("star.svg"@) == Some(AssetKind::Svg),
        asset_kind_of("s-brass-s21.png"@) is Some,
        asset_kind_of("s-silver-1.png"@) is Some,
        asset_kind_of("s-gold-1.png"@) is Some,
        asset_kind_of("s-diamond-1.png"@) is Some,
{
    reveal_strlit(".svg");
    reveal_strlit(".png");
    lemma_ending(name);
}

proof fn lemma_ending(name: Seq<char>)
    ensures
        asset_kind_of(name) == Some(AssetKind::Svg) ==> text::has_suffix(name, ".svg"@),
        asset_kind_of(name) == Some(AssetKind::Png) ==> text::has_suffix(name, ".png"@),
{
    reveal_strlit(".svg");
    reveal_strlit(".png");
    reveal_strlit("ABC_bg.svg");
    reveal_strlit("S.svg");
    reveal_strlit("A.svg");
    reveal_strlit("A1.svg");
    reveal_strlit("B.svg");
    reveal_strlit("B1.svg");
    reveal_strlit("C.svg");
    reveal_strlit("C1.svg");
    reveal_strlit("D.svg");
    reveal_strlit("D1.svg");
    reveal_strlit("A11.svg");
    reveal_strlit("B11.svg");
    reveal_strlit("C11.svg");
    reveal_strlit("A11_bg.svg");
    reveal_strlit("B11_bg.svg");
    reveal_strlit("C11_bg.svg");
    reveal_strlit("star.svg");
    reveal_strlit("s-brass-s21.png");
    reveal_strlit("s-silver-1.png");
    reveal_strlit("s-gold-1.png");
    reveal_strlit("s-diamond-1.png");
    if name.len() >= 4 {
        let end = name.skip(name.len() - 4);
        assert(asset_kind_of(name) == Some(AssetKind::Svg) ==> end =~= ".svg"@);
        assert(asset_kind_of(name) == Some(AssetKind::Png) ==> end =~= ".png"@);
    }
}

} // verus!
