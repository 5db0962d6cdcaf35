//! How a page is put together: placeholders filled, characters escaped, and the navigation that
//! every page carries.

use vstd::prelude::*;

use crate::search;
use crate::server::instructions::{ANALYSIS_PATH, DETAILS_PATH, PATH};
use crate::text;

verus! {

/// A document that cannot be rendered, and why. The pages render once before the listener binds, so
/// this is a startup failure rather than something a reader meets.
#[derive(Debug)]
pub struct Broken {
    pub reason: String,
}

impl View for Broken {
    type V = Seq<char>;

    open spec fn view(&self) -> Seq<char> {
        self.reason@
    }
}

/// That a document cannot be rendered for a reason.
pub(crate) fn broken(reason: &str) -> (r: Broken)
    ensures
        r@ == reason@,
{
    Broken { reason: String::from_str(reason) }
}

/// How a character is written where it would otherwise start a tag or an entity, or end an
/// attribute.
pub open spec fn entity(c: char) -> Seq<char> {
    if c == '&' {
        "&amp;"@
    } else if c == '<' {
        "&lt;"@
    } else if c == '>' {
        "&gt;"@
    } else if c == '"' {
        "&quot;"@
    } else if c == '\'' {
        "&#39;"@
    } else {
        seq![c]
    }
}

/// A text with the characters escaped that would otherwise be markup.
pub open spec fn escaped(s: Seq<char>) -> Seq<char>
    decreases s.len(),
{
    if s.len() == 0 {
        seq![]
    } else {
        escaped(s.drop_last()) + entity(s.last())
    }
}

/// A text with the characters escaped that would otherwise be markup. Quotes too, so this is safe
/// in an attribute and not only between tags: `fill` is blind to where a value is going.
pub fn escape(s: &str) -> (r: String)
    ensures
        r@ == escaped(s@),
{
    let x = text::chars_of(s);
    let mut r = String::new();
    assert(r@ =~= escaped(s@.take(0)));
    for i in 0..x.len()
        invariant
            x@ == s@,
            r@ == escaped(s@.take(i as int)),
    {
        let c = x[i];
        assert(s@.take(i + 1).drop_last() =~= s@.take(i as int));
        assert(s@.take(i + 1).last() == c);
        if c == '&' {
            r.append("&amp;");
        } else if c == '<' {
            r.append("&lt;");
        } else if c == '>' {
            r.append("&gt;");
        } else if c == '"' {
            r.append("&quot;");
        } else if c == '\'' {
            r.append("&#39;");
        } else {
            r.push(c);
            assert(r@ =~= escaped(s@.take(i as int)) + seq![c]);
        }
    }
    assert(s@.take(s@.len() as int) =~= s@);
    r
}

/// Whether a character is markup by itself.
pub open spec fn is_markup(c: char) -> bool {
    c == '<' || c == '>' || c == '"' || c == '\''
}

/// What is escaped holds no markup: no tag begins or ends in it, and no attribute ends in it.
pub proof fn escaped_holds_no_markup(s: Seq<char>)
    ensures
        forall|i: int| 0 <= i < escaped(s).len() ==> !is_markup(#[trigger] escaped(s)[i]),
    decreases s.len(),
{
    if s.len() > 0 {
        let head = escaped(s.drop_last());
        let tail = entity(s.last());
        escaped_holds_no_markup(s.drop_last());
        reveal_strlit("&amp;");
        reveal_strlit("&lt;");
        reveal_strlit("&gt;");
        reveal_strlit("&quot;");
        reveal_strlit("&#39;");
        assert forall|i: int| 0 <= i < tail.len() implies !is_markup(#[trigger] tail[i]) by {}
        assert forall|i: int| 0 <= i < escaped(s).len() implies !is_markup(
            #[trigger] escaped(s)[i],
        ) by {
            if i < head.len() {
                assert(escaped(s)[i] == head[i]);
            } else {
                assert(escaped(s)[i] == tail[i - head.len()]);
            }
        }
    }
}

/// The pages this server serves, in the order the navigation lists them, under the heading saying
/// who each group is for. Grouped rather than flat: naming the audience makes all three reachable
/// while still saying which are yours.
pub open spec fn nav_groups() -> Seq<(Seq<char>, Seq<(Seq<char>, Seq<char>)>)> {
    seq![
        ("Running a pool"@, seq![(PATH@, "Quickstart"@), (DETAILS_PATH@, "Details"@)]),
        ("Reading the archive"@, seq![(ANALYSIS_PATH@, "Analysis"@)]),
    ]
}

/// One entry of the navigation. The current page is still a link, so a reader who clicks it lands
/// where they already are; `aria-current` is what says which one it is.
pub open spec fn nav_item(page: (Seq<char>, Seq<char>), current: Seq<char>) -> Seq<char> {
    "<li><a href=\""@ + page.0 + "\""@ + (if page.0 == current {
        " aria-current=\"page\""@
    } else {
        ""@
    }) + ">"@ + page.1 + "</a>"@
}

/// One group of the navigation.
pub open spec fn nav_group(
    group: (Seq<char>, Seq<(Seq<char>, Seq<char>)>),
    current: Seq<char>,
) -> Seq<char> {
    "<p class=\"nav-audience\">"@ + group.0 + "</p>\n<ul>\n"@ + text::joined(
        group.1.map_values(|page: (Seq<char>, Seq<char>)| nav_item(page, current)),
        "\n"@,
    ) + "\n</ul>"@
}

/// The navigation every page carries, with the one being rendered marked.
pub open spec fn nav_text(current: Seq<char>) -> Seq<char> {
    "<nav class=\"pages\" aria-label=\"Pages\">\n"@ + text::joined(
        nav_groups().map_values(
            |group: (Seq<char>, Seq<(Seq<char>, Seq<char>)>)| nav_group(group, current),
        ),
        "\n"@,
    ) + "\n</nav>"@
}

fn item(path: &str, title: &str, current: &str) -> (r: String)
    ensures
        r@ == nav_item((path@, title@), current@),
{
    let mut r = String::from_str("<li><a href=\"");
    r.append(path);
    r.append("\"");
    r.append(
        if text::same(path, current) {
            " aria-current=\"page\""
        } else {
            ""
        },
    );
    r.append(">");
    r.append(title);
    r.append("</a>");
    r
}

fn group(audience: &str, items: Vec<String>) -> (r: String)
    ensures
        r@ == "<p class=\"nav-audience\">"@ + audience@ + "</p>\n<ul>\n"@ + text::joined(
            text::views(items@),
            "\n"@,
        ) + "\n</ul>"@,
{
    let mut r = String::from_str("<p class=\"nav-audience\">");
    r.append(audience);
    r.append("</p>\n<ul>\n");
    r.append(text::join(items.as_slice(), "\n").as_str());
    r.append("\n</ul>");
    r
}

/// The navigation every page carries, with the one being rendered marked.
pub fn nav(current: &str) -> (r: String)
    ensures
        r@ == nav_text(current@),
{
    let ghost as_item = |page: (Seq<char>, Seq<char>)| nav_item(page, current@);
    let mut running: Vec<String> = Vec::new();
    running.push(item(PATH, "Quickstart", current));
    running.push(item(DETAILS_PATH, "Details", current));
    assert(text::views(running@) =~= nav_groups()[0].1.map_values(as_item));
    let mut reading: Vec<String> = Vec::new();
    reading.push(item(ANALYSIS_PATH, "Analysis", current));
    assert(text::views(reading@) =~= nav_groups()[1].1.map_values(as_item));
    let mut groups: Vec<String> = Vec::new();
    groups.push(group("Running a pool", running));
    groups.push(group("Reading the archive", reading));
    assert(text::views(groups@) =~= nav_groups().map_values(
        |group: (Seq<char>, Seq<(Seq<char>, Seq<char>)>)| nav_group(group, current@),
    ));
    let mut r = String::from_str("<nav class=\"pages\" aria-label=\"Pages\">\n");
    r.append(text::join(groups.as_slice(), "\n").as_str());
    r.append("\n</nav>");
    r
}

/// The pages in reading order: the navigation's, without its groups.
pub open spec fn reading_order() -> Seq<(Seq<char>, Seq<char>)> {
    nav_groups()[0].1 + nav_groups()[1].1
}

/// Where a page stands in reading order.
pub open spec fn page_number(current: Seq<char>) -> int {
    if current == PATH@ {
        0
    } else if current == DETAILS_PATH@ {
        1
    } else {
        2
    }
}

/// Whether a path is a page's.
pub open spec fn is_page(path: Seq<char>) -> bool {
    path == PATH@ || path == DETAILS_PATH@ || path == ANALYSIS_PATH@
}

/// A link to the page that stands somewhere in reading order; nothing before the first and behind
/// the last.
pub open spec fn sequence_link(class: Seq<char>, label: Seq<char>, number: int) -> Seq<char> {
    if 0 <= number < reading_order().len() {
        "<a class=\""@ + class + "\" href=\""@ + reading_order()[number].0
            + "\"><span class=\"sequence-label\">"@ + label + "</span>"@
            + reading_order()[number].1 + "</a>\n"@
    } else {
        seq![]
    }
}

/// The pages either side of one, as the navigation orders them. An end of the sequence carries no
/// link rather than a disabled one.
pub open spec fn sequence_text(current: Seq<char>) -> Seq<char> {
    let number = page_number(current);
    "<nav class=\"sequence\" aria-label=\"Pages either side\">\n"@ + sequence_link(
        "prev"@,
        "Previous"@,
        number - 1,
    ) + sequence_link("next"@, "Next"@, number + 1) + "</nav>"@
}

fn link(class: &str, label: &str, number: Option<usize>) -> (r: String)
    ensures
        r@ == match number {
            Some(number) => sequence_link(class@, label@, number as int),
            None => seq![],
        },
{
    let (path, title) = match number {
        Some(0) => (PATH, "Quickstart"),
        Some(1) => (DETAILS_PATH, "Details"),
        Some(2) => (ANALYSIS_PATH, "Analysis"),
        _ => {
            assert(reading_order().len() == 3);
            let r = String::new();
            assert(r@ =~= seq![]);
            return r;
        },
    };
    let mut r = String::from_str("<a class=\"");
    r.append(class);
    r.append("\" href=\"");
    r.append(path);
    r.append("\"><span class=\"sequence-label\">");
    r.append(label);
    r.append("</span>");
    r.append(title);
    r.append("</a>\n");
    r
}

/// The pages either side of one: see `sequence_text`.
pub fn sequence(current: &str) -> (r: String)
    requires
        is_page(current@),
    ensures
        r@ == sequence_text(current@),
{
    let number: usize = if text::same(current, PATH) {
        0
    } else if text::same(current, DETAILS_PATH) {
        1
    } else {
        2
    };
    let before: Option<usize> = if number > 0 {
        Some(number - 1)
    } else {
        None
    };
    let mut r = String::from_str("<nav class=\"sequence\" aria-label=\"Pages either side\">\n");
    r.append(link("prev", "Previous", before).as_str());
    r.append(link("next", "Next", Some(number + 1)).as_str());
    r.append("</nav>");
    r
}

/// The reading order has the three pages, each once.
pub proof fn reading_order_has_every_page_once()
    ensures
        reading_order().len() == 3,
        forall|path: Seq<char>| #[trigger]
            is_page(path) ==> reading_order()[page_number(path)].0 == path,
        forall|i: int, j: int|
            0 <= i < j < 3 ==> (#[trigger] reading_order()[i]).0 != (
            #[trigger] reading_order()[j]).0,
{
    reveal_strlit("/");
    reveal_strlit("/details");
    reveal_strlit("/analysis");
    assert(DETAILS_PATH@[1] == 'd' && ANALYSIS_PATH@[1] == 'a');
    assert(PATH@.len() == 1 && DETAILS_PATH@.len() > 1 && ANALYSIS_PATH@.len() > 1);
}

/// The entry of a section in a page's contents, given the markup behind where its id begins.
pub open spec fn toc_item(rest: Seq<char>) -> Result<Seq<char>, Seq<char>> {
    match search::halves_by(rest, "\">"@) {
        None => Err("a section's id is not quoted"@),
        Some((id, behind)) => match search::halves_by(behind, "</h2>"@) {
            None => Err("a section heading does not close"@),
            Some((title, _)) => if title.contains('<') {
                Err("the section "@ + id + " carries markup the contents cannot show"@)
            } else {
                Ok("<li><a href=\"#"@ + id + "\">"@ + title + "</a>"@)
            },
        },
    }
}

/// The entries of sections in order, or the first that makes none and why.
pub open spec fn toc_items(rests: Seq<Seq<char>>) -> Result<Seq<Seq<char>>, Seq<char>>
    decreases rests.len(),
{
    if rests.len() == 0 {
        Ok(seq![])
    } else {
        match toc_items(rests.drop_last()) {
            Err(reason) => Err(reason),
            Ok(before) => match toc_item(rests.last()) {
                Err(reason) => Err(reason),
                Ok(item) => Ok(before.push(item)),
            },
        }
    }
}

/// A page's own sections, read out of its headings. Every heading has to carry an id, which is what
/// the anchor is: a section quietly missing from the contents is the failure this would otherwise
/// become.
pub open spec fn toc_text(template: Seq<char>) -> Result<Seq<char>, Seq<char>> {
    if search::times_in(template, "<h2"@) != search::times_in(template, "<h2 id=\""@) {
        Err("every section needs an id for the contents to link it by"@)
    } else {
        match toc_items(search::pieces_by(template, "<h2 id=\""@).skip(1)) {
            Err(reason) => Err(reason),
            Ok(items) => if items.len() == 0 {
                Err("a page lists no sections at all"@)
            } else {
                Ok(
                    "<nav class=\"toc\" aria-label=\"On this page\">\n<p class=\"nav-audience\">On this page</p>\n<ul>\n"@
                        + text::joined(items, "\n"@) + "\n</ul>\n</nav>"@,
                )
            },
        }
    }
}

proof fn lemma_toc_fault_stays(rests: Seq<Seq<char>>, i: int)
    requires
        0 <= i <= rests.len(),
        toc_items(rests.take(i)) is Err,
    ensures
        toc_items(rests) == toc_items(rests.take(i)),
    decreases rests.len() - i,
{
    if i < rests.len() {
        assert(rests.take(i + 1).drop_last() =~= rests.take(i));
        lemma_toc_fault_stays(rests, i + 1);
    } else {
        assert(rests.take(i) =~= rests);
    }
}

fn section(rest: &str) -> (r: Result<String, Broken>)
    ensures
        match r {
            Ok(item) => toc_item(rest@) == Ok::<Seq<char>, Seq<char>>(item@),
            Err(error) => toc_item(rest@) == Err::<Seq<char>, Seq<char>>(error@),
        },
{
    let (id, behind) = match search::split_once(rest, "\">") {
        Some(halves) => halves,
        None => {
            return Err(broken("a section's id is not quoted"));
        },
    };
    let title = match search::split_once(behind.as_str(), "</h2>") {
        Some((title, _)) => title,
        None => {
            return Err(broken("a section heading does not close"));
        },
    };
    if text::has_char(title.as_str(), '<') {
        let mut reason = String::from_str("the section ");
        reason.append(id.as_str());
        reason.append(" carries markup the contents cannot show");
        return Err(Broken { reason });
    }
    let mut item = String::from_str("<li><a href=\"#");
    item.append(id.as_str());
    item.append("\">");
    item.append(title.as_str());
    item.append("</a>");
    Ok(item)
}

/// A page's own sections: see `toc_text`.
pub fn toc(template: &str) -> (r: Result<String, Broken>)
    ensures
        match r {
            Ok(contents) => toc_text(template@) == Ok::<Seq<char>, Seq<char>>(contents@),
            Err(error) => toc_text(template@) == Err::<Seq<char>, Seq<char>>(error@),
        },
{
    proof {
        reveal_strlit("<h2");
        reveal_strlit("<h2 id=\"");
    }
    let headings = search::split(template, "<h2");
    let sections = search::split(template, "<h2 id=\"");
    if headings.len() != sections.len() {
        return Err(broken("every section needs an id for the contents to link it by"));
    }
    let ghost rests = search::pieces_by(template@, "<h2 id=\""@).skip(1);
    let mut items: Vec<String> = Vec::new();
    assert(text::views(items@) =~= seq![]);
    for i in 1..sections.len()
        invariant
            text::views(sections@) == search::pieces_by(template@, "<h2 id=\""@),
            rests == search::pieces_by(template@, "<h2 id=\""@).skip(1),
            sections@.len() >= 1,
            search::times_in(template@, "<h2"@) == search::times_in(template@, "<h2 id=\""@),
            toc_items(rests.take(i - 1)) == Ok::<Seq<Seq<char>>, Seq<char>>(text::views(items@)),
    {
        let ghost before = items@;
        assert(text::views(sections@)[i as int] == sections@[i as int]@);
        assert(rests.take(i as int).drop_last() =~= rests.take(i - 1));
        assert(rests.take(i as int).last() == sections@[i as int]@);
        match section(sections[i].as_str()) {
            Ok(item) => {
                items.push(item);
                assert(text::views(items@) =~= text::views(before).push(item@));
            },
            Err(error) => {
                proof {
                    lemma_toc_fault_stays(rests, i as int);
                }
                return Err(error);
            },
        }
    }
    assert(rests.take(sections@.len() - 1) =~= rests);
    if items.len() == 0 {
        return Err(broken("a page lists no sections at all"));
    }
    let mut r = String::from_str(
        "<nav class=\"toc\" aria-label=\"On this page\">\n<p class=\"nav-audience\">On this page</p>\n<ul>\n",
    );
    r.append(text::join(items.as_slice(), "\n").as_str());
    r.append("\n</ul>\n</nav>");
    Ok(r)
}

/// The views of values under names.
pub open spec fn value_views(values: Seq<(&'static str, String)>) -> Seq<(Seq<char>, Seq<char>)> {
    values.map_values(|value: (&'static str, String)| (value.0@, value.1@))
}

/// Where the first of some values with a name stands; below zero where none has it.
pub open spec fn value_place(values: Seq<(Seq<char>, Seq<char>)>, name: Seq<char>) -> int
    decreases values.len(),
{
    if values.len() == 0 {
        -1
    } else if values[0].0 == name {
        0
    } else {
        let behind = value_place(values.skip(1), name);
        if behind < 0 {
            -1
        } else {
            behind + 1
        }
    }
}

/// A template with its `{{name}}` placeholders filled, and which values were used; or the first
/// placeholder that cannot be. One pass, and a filled value is never scanned again, so the `}}` a
/// compact JSON example ends on cannot read as a placeholder.
pub open spec fn scanned(template: Seq<char>, values: Seq<(Seq<char>, Seq<char>)>) -> Result<
    (Seq<char>, Set<int>),
    Seq<char>,
>
    decreases template.len(),
{
    match search::halves_by(template, "{{"@) {
        None => Ok((template, Set::empty())),
        Some((before, opened)) => match search::halves_by(opened, "}}"@) {
            None => Err("a placeholder the template opens is not closed"@),
            Some((name, behind)) => {
                let at = value_place(values, name);
                if at < 0 {
                    Err("the template names "@ + name + ", which nothing fills"@)
                } else if behind.len() >= template.len() {
                    Err(seq![])
                } else {
                    match scanned(behind, values) {
                        Err(reason) => Err(reason),
                        Ok((rest, used)) => Ok((before + values[at].1 + rest, used.insert(at))),
                    }
                }
            },
        },
    }
}

/// The first of some values, from `from` on, that was not used.
pub open spec fn first_unused(values: Seq<(Seq<char>, Seq<char>)>, used: Set<int>, from: int) -> Option<
    Seq<char>,
>
    decreases values.len() - from,
{
    if from < 0 || from >= values.len() {
        None
    } else if !used.contains(from) {
        Some(values[from].0)
    } else {
        first_unused(values, used, from + 1)
    }
}

/// A template with its `{{name}}` placeholders filled. A name nothing fills, and a value the
/// template never names, both break it.
pub open spec fn filled(template: Seq<char>, values: Seq<(Seq<char>, Seq<char>)>) -> Result<
    Seq<char>,
    Seq<char>,
> {
    match scanned(template, values) {
        Err(reason) => Err(reason),
        Ok((page, used)) => match first_unused(values, used, 0) {
            Some(name) => Err("the template does not name "@ + name),
            None => Ok(page),
        },
    }
}

/// A template without placeholders is the page it makes of no values.
pub proof fn plain_template_is_its_page(template: Seq<char>)
    requires
        search::place_of(template, "{{"@) < 0,
    ensures
        filled(template, seq![]) == Ok::<Seq<char>, Seq<char>>(template),
{
}

/// What a value holds is never read as a placeholder: a page is what stands before its first
/// placeholder, that placeholder's value as it is, and what the rest of the template makes.
pub proof fn a_value_is_never_scanned(
    template: Seq<char>,
    values: Seq<(Seq<char>, Seq<char>)>,
    before: Seq<char>,
    name: Seq<char>,
    behind: Seq<char>,
)
    requires
        search::halves_by(template, "{{"@) == Some((before, name + "}}"@ + behind)),
        search::halves_by(name + "}}"@ + behind, "}}"@) == Some((name, behind)),
        scanned(template, values) is Ok,
    ensures
        value_place(values, name) >= 0,
        scanned(behind, values) is Ok,
        (scanned(template, values)->Ok_0).0 == before + values[value_place(values, name)].1 + (
        scanned(behind, values)->Ok_0).0,
{
    lemma_behind_is_shorter(template);
}

proof fn lemma_behind_is_shorter(template: Seq<char>)
    ensures
        search::halves_by(template, "{{"@) matches Some((_, opened)) ==> (opened.len()
            < template.len() && (search::halves_by(opened, "}}"@) matches Some((_, behind))
            ==> behind.len() < template.len())),
{
    reveal_strlit("{{");
    reveal_strlit("}}");
    search::lemma_place(template, "{{"@);
    if search::place_of(template, "{{"@) >= 0 {
        let opened = template.skip(search::place_of(template, "{{"@) + 2);
        search::lemma_place(opened, "}}"@);
    }
}

fn find_value(values: &[(&'static str, String)], name: &str) -> (r: Option<usize>)
    ensures
        match r {
            Some(i) => i < values@.len() && value_place(value_views(values@), name@) == i,
            None => value_place(value_views(values@), name@) < 0,
        },
{
    let ghost all = value_views(values@);
    assert(all.skip(0) =~= all);
    for i in 0..values.len()
        invariant
            all == value_views(values@),
            value_place(all, name@) < 0 <==> value_place(all.skip(i as int), name@) < 0,
            value_place(all, name@) >= 0 ==> value_place(all, name@) == i + value_place(
                all.skip(i as int),
                name@,
            ),
    {
        let ghost rest = all.skip(i as int);
        assert(rest[0] == all[i as int]);
        assert(rest.skip(1) =~= all.skip(i + 1));
        if text::same(values[i].0, name) {
            return Some(i);
        }
    }
    None
}

/// A template that was scanned so far: what it made, which values it used, and what the rest of it
/// makes of the same values.
spec fn carried(
    page: Seq<char>,
    used: Set<int>,
    rest: Result<(Seq<char>, Set<int>), Seq<char>>,
) -> Result<(Seq<char>, Set<int>), Seq<char>> {
    match rest {
        Err(reason) => Err(reason),
        Ok((behind, more)) => Ok((page + behind, used.union(more))),
    }
}

/// The places that flags mark.
spec fn marked(flags: Seq<bool>) -> Set<int> {
    Set::new(|i: int| 0 <= i < flags.len() && flags[i])
}

/// A template with its `{{name}}` placeholders filled: see `filled`.
pub fn fill(template: &str, values: &[(&'static str, String)]) -> (r: Result<String, Broken>)
    ensures
        match r {
            Ok(page) => filled(template@, value_views(values@)) == Ok::<Seq<char>, Seq<char>>(
                page@,
            ),
            Err(error) => filled(template@, value_views(values@)) == Err::<Seq<char>, Seq<char>>(
                error@,
            ),
        },
{
    let ghost all = value_views(values@);
    let mut page = String::new();
    let mut used: Vec<bool> = Vec::new();
    for i in 0..values.len()
        invariant
            used@.len() == i,
            forall|j: int| 0 <= j < i ==> !#[trigger] used@[j],
    {
        used.push(false);
    }
    let mut rest = String::from_str(template);
    proof {
        assert(marked(used@) =~= Set::empty());
        let start = scanned(template@, all);
        if start is Ok {
            assert(seq![] + (start->Ok_0).0 =~= (start->Ok_0).0);
            assert(marked(used@).union((start->Ok_0).1) =~= (start->Ok_0).1);
        }
        assert(page@ =~= seq![]);
        assert(carried(page@, marked(used@), start) == start);
    }
    loop
        invariant_except_break
            scanned(template@, all) == carried(page@, marked(used@), scanned(rest@, all)),
        invariant
            all == value_views(values@),
            used@.len() == values@.len(),
        ensures
            scanned(template@, all) == Ok::<(Seq<char>, Set<int>), Seq<char>>(
                (page@, marked(used@)),
            ),
        decreases rest@.len(),
    {
        proof {
            lemma_behind_is_shorter(rest@);
        }
        let (before, opened) = match search::split_once(rest.as_str(), "{{") {
            Some(halves) => halves,
            None => {
                page.append(rest.as_str());
                assert(marked(used@).union(Set::empty()) =~= marked(used@));
                break;
            },
        };
        let (name, behind) = match search::split_once(opened.as_str(), "}}") {
            Some(halves) => halves,
            None => {
                return Err(broken("a placeholder the template opens is not closed"));
            },
        };
        match find_value(values, name.as_str()) {
            None => {
                let mut reason = String::from_str("the template names ");
                reason.append(name.as_str());
                reason.append(", which nothing fills");
                return Err(Broken { reason });
            },
            Some(i) => {
                let ghost made = page@;
                let ghost flags = used@;
                page.append(before.as_str());
                page.append(values[i].1.as_str());
                used.set(i, true);
                proof {
                    assert(all[i as int].1 == values@[i as int].1@);
                    assert(marked(used@) =~= marked(flags).insert(i as int));
                    let tail = scanned(behind@, all);
                    if tail is Ok {
                        let (more, others) = tail->Ok_0;
                        assert(made + (before@ + all[i as int].1 + more) =~= page@ + more);
                        assert(marked(flags).union(others.insert(i as int)) =~= marked(used@).union(
                            others,
                        ));
                    }
                }
                rest = behind;
            },
        }
    }
    let ghost marks = marked(used@);
    for i in 0..values.len()
        invariant
            all == value_views(values@),
            used@.len() == values@.len(),
            marks == marked(used@),
            scanned(template@, all) == Ok::<(Seq<char>, Set<int>), Seq<char>>((page@, marks)),
            first_unused(all, marks, 0) == first_unused(all, marks, i as int),
    {
        assert(all[i as int].0 == values@[i as int].0@);
        if !used[i] {
            let mut reason = String::from_str("the template does not name ");
            reason.append(values[i].0);
            return Err(Broken { reason });
        }
    }
    Ok(page)
}

/// Escaping goes character by character: each of the five that mean something is spelled out, and
/// every other stays as it is.
pub proof fn escaping_goes_by_character(a: Seq<char>, b: Seq<char>, c: char)
    ensures
        escaped(a + b) == escaped(a) + escaped(b),
        c != '&' && c != '<' && c != '>' && c != '"' && c != '\'' ==> escaped(seq![c]) == seq![c],
        escaped(seq!['&']) == "&amp;"@,
        escaped(seq!['<']) == "&lt;"@,
        escaped(seq!['>']) == "&gt;"@,
        escaped(seq!['"']) == "&quot;"@,
        escaped(seq!['\'']) == "&#39;"@,
    decreases b.len(),
{
    if b.len() == 0 {
        assert(a + b =~= a);
        assert(escaped(a) + escaped(b) =~= escaped(a));
    } else {
        escaping_goes_by_character(a, b.drop_last(), c);
        assert((a + b).drop_last() =~= a + b.drop_last());
        assert((a + b).last() == b.last());
        assert(escaped(a + b) =~= escaped(a) + escaped(b));
    }
    lemma_one_escaped(c);
    lemma_one_escaped('&');
    lemma_one_escaped('<');
    lemma_one_escaped('>');
    lemma_one_escaped('"');
    lemma_one_escaped('\'');
}

proof fn lemma_one_escaped(c: char)
    ensures
        escaped(seq![c]) == entity(c),
{
    assert(seq![c].drop_last() =~= Seq::<char>::empty());
    assert(escaped(Seq::<char>::empty()) =~= Seq::<char>::empty());
    assert(seq![c].last() == c);
    assert(escaped(seq![c]) =~= entity(c));
}

/// A page is made only where its template and its values meet: a value that the template does not
/// name is refused, and so is a name that no value fills.
pub proof fn template_and_values_meet(
    template: Seq<char>,
    values: Seq<(Seq<char>, Seq<char>)>,
    i: int,
)
    requires
        0 <= i < values.len(),
    ensures
        scanned(template, values) is Err ==> filled(template, values) is Err,
        scanned(template, values) matches Ok((page, used)) && !used.contains(i) ==> filled(
            template,
            values,
        ) is Err,
        search::place_of(template, "{{"@) < 0 ==> filled(template, values) == Err::<
            Seq<char>,
            Seq<char>,
        >("the template does not name "@ + values[0].0),
{
    if let Ok((page, used)) = scanned(template, values) {
        if !used.contains(i) {
            lemma_unused_found(values, used, 0, i);
        }
    }
}

proof fn lemma_unused_found(
    values: Seq<(Seq<char>, Seq<char>)>,
    used: Set<int>,
    from: int,
    i: int,
)
    requires
        0 <= from <= i < values.len(),
        !used.contains(i),
    ensures
        first_unused(values, used, from) is Some,
    decreases i - from,
{
    if from < i && used.contains(from) {
        lemma_unused_found(values, used, from + 1, i);
    }
}

/// A value is found by its name: the first of that name, and none where none has it.
pub proof fn a_value_is_found_by_name(values: Seq<(Seq<char>, Seq<char>)>, name: Seq<char>)
    ensures
        value_place(values, name) < values.len(),
        value_place(values, name) >= 0 ==> values[value_place(values, name)].0 == name,
        forall|i: int|
            0 <= i < values.len() && (value_place(values, name) < 0 || i < value_place(values, name))
                ==> (#[trigger] values[i]).0 != name,
    decreases values.len(),
{
    if values.len() > 0 && values[0].0 != name {
        let rest = values.skip(1);
        a_value_is_found_by_name(rest, name);
        let behind = value_place(rest, name);
        if behind >= 0 {
            assert(rest[behind] == values[behind + 1]);
        }
        assert forall|i: int|
            0 <= i < values.len() && (value_place(values, name) < 0 || i < value_place(
                values,
                name,
            )) implies (#[trigger] values[i]).0 != name by {
            if i > 0 {
                assert(rest[i - 1] == values[i]);
            }
        }
    }
}

/// The contents list every section, in the order of the page, or there are none.
pub proof fn every_section_is_listed(rests: Seq<Seq<char>>)
    ensures
        toc_items(rests) matches Ok(items) ==> items.len() == rests.len() && forall|i: int|
            0 <= i < rests.len() ==> toc_item(#[trigger] rests[i]) == Ok::<Seq<char>, Seq<char>>(
                items[i],
            ),
    decreases rests.len(),
{
    if rests.len() > 0 {
        every_section_is_listed(rests.drop_last());
        assert(rests[rests.len() - 1] == rests.last());
        assert(forall|i: int|
            0 <= i < rests.len() - 1 ==> rests.drop_last()[i] == #[trigger] rests[i]);
        if let Ok(items) = toc_items(rests) {
            assert forall|i: int| 0 <= i < rests.len() implies toc_item(#[trigger] rests[i]) == Ok::<
                Seq<char>,
                Seq<char>,
            >(items[i]) by {
                if i < rests.len() - 1 {
                    assert(toc_item(rests.drop_last()[i]) is Ok);
                }
            }
        }
    }
}

}
