//! Group name templates: literal text with `${name}` placeholders that
//! stand for the text of the named capture groups of a match.

use vstd::prelude::*;
use vstd::string::*;

verus! {

/// One capture group of a match: the group's name if it has one, and the
/// text it matched if it took part in the match.
#[derive(Debug)]
pub struct CaptureGroup {
    pub name: Option<String>,
    pub text: Option<String>,
}

/// What a `CaptureGroup` stands for.
pub struct CaptureGroupView {
    pub name: Option<Seq<char>>,
    pub text: Option<Seq<char>>,
}

impl View for CaptureGroup {
    type V = CaptureGroupView;

    open spec fn view(&self) -> CaptureGroupView {
        CaptureGroupView {
            name: match self.name {
                Some(name) => Some(name@),
                None => None,
            },
            text: match self.text {
                Some(text) => Some(text@),
                None => None,
            },
        }
    }
}

/// The capture groups that a sequence of `CaptureGroup` stands for.
pub open spec fn groups_of(groups: Seq<CaptureGroup>) -> Seq<CaptureGroupView> {
    groups.map_values(|group: CaptureGroup| group@)
}

/// The text captured under each name: one entry for each named group that
/// took part in the match.
pub open spec fn named_captures(groups: Seq<CaptureGroupView>) -> Map<Seq<char>, Seq<char>>
    decreases groups.len(),
{
    if groups.len() == 0 {
        Map::empty()
    } else {
        let before = named_captures(groups.drop_last());
        match (groups.last().name, groups.last().text) {
            (Some(name), Some(text)) => before.insert(name, text),
            _ => before,
        }
    }
}

/// The first position at or after `from` that holds `}`.
pub open spec fn closing_brace(template: Seq<char>, from: int) -> Option<int>
    decreases template.len() - from,
{
    if from < 0 || from >= template.len() {
        None
    } else if template[from] == '}' {
        Some(from)
    } else {
        closing_brace(template, from + 1)
    }
}

/// Where the placeholder that opens at `at` closes. A placeholder is `${`,
/// then a name that holds no `}`, then `}`. Where `${` is never closed it is
/// ordinary text.
pub open spec fn placeholder_end(template: Seq<char>, at: int) -> Option<int> {
    if 0 <= at && at + 1 < template.len() && template[at] == '$' && template[at + 1] == '{' {
        closing_brace(template, at + 2)
    } else {
        None
    }
}

/// `text` put in front of a resolved remainder; a failure stays as it is.
pub open spec fn prepend(text: Seq<char>, rest: Result<Seq<char>, Seq<char>>) -> Result<
    Seq<char>,
    Seq<char>,
> {
    match rest {
        Ok(tail) => Ok(text + tail),
        Err(name) => Err(name),
    }
}

/// The template from position `at` on, with each placeholder replaced by the
/// text captured under its name. `Err` holds the name of the first
/// placeholder for which nothing was captured.
pub open spec fn resolve_from(
    template: Seq<char>,
    captures: Map<Seq<char>, Seq<char>>,
    at: int,
) -> Result<Seq<char>, Seq<char>>
    decreases template.len() - at,
    via resolve_from_decreases
{
    if at < 0 || at >= template.len() {
        Ok(Seq::empty())
    } else {
        match placeholder_end(template, at) {
            Some(end) => {
                let name = template.subrange(at + 2, end);
                if captures.dom().contains(name) {
                    prepend(captures[name], resolve_from(template, captures, end + 1))
                } else {
                    Err(name)
                }
            },
            None => prepend(seq![template[at]], resolve_from(template, captures, at + 1)),
        }
    }
}

#[via_fn]
proof fn resolve_from_decreases(
    template: Seq<char>,
    captures: Map<Seq<char>, Seq<char>>,
    at: int,
) {
    if 0 <= at < template.len() {
        if let Some(end) = placeholder_end(template, at) {
            lemma_closing_brace(template, at + 2);
        }
    }
}

/// The name that a template resolves to under the given captures.
pub open spec fn resolve(template: Seq<char>, captures: Map<Seq<char>, Seq<char>>) -> Result<
    Seq<char>,
    Seq<char>,
> {
    resolve_from(template, captures, 0)
}

/// `closing_brace` finds a `}`, and the first one.
pub proof fn lemma_closing_brace(template: Seq<char>, from: int)
    requires
        0 <= from,
    ensures
        match closing_brace(template, from) {
            Some(end) => {
                &&& from <= end < template.len()
                &&& template[end] == '}'
                &&& forall|k: int| from <= k < end ==> template[k] != '}'
            },
            None => forall|k: int| from <= k < template.len() ==> template[k] != '}',
        },
    decreases template.len() - from,
{
    if from < template.len() && template[from] != '}' {
        lemma_closing_brace(template, from + 1);
    }
}

/// A placeholder for which the match captured nothing.
#[derive(Debug)]
pub struct TemplateSubstitutionError {
    pub placeholder: String,
}

/// The characters of a string, one by one.
pub fn chars_of(text: &str) -> (chars: Vec<char>)
    ensures
        chars@ == text@,
{
    let mut chars: Vec<char> = Vec::new();
    for c in it: text.chars()
        invariant
            chars@ == it.seq().take(it.index()),
            it.seq() == text@,
    {
        chars.push(c);
    }
    chars
}

/// Looks for the first `}` at or after `from`.
fn find_closing_brace(template: &Vec<char>, from: usize) -> (found: Option<usize>)
    requires
        from <= template.len(),
    ensures
        match found {
            Some(end) => closing_brace(template@, from as int) == Some(end as int),
            None => closing_brace(template@, from as int) is None,
        },
{
    let mut at = from;
    while at < template.len()
        invariant
            from <= at <= template.len(),
            closing_brace(template@, from as int) == closing_brace(template@, at as int),
        decreases template.len() - at,
    {
        if template[at] == '}' {
            return Some(at);
        }
        at += 1;
    }
    None
}

/// The text captured under `name`, if a group of that name took part in the
/// match.
pub fn captured_text<'a>(groups: &'a Vec<CaptureGroup>, name: &String) -> (found: Option<
    &'a String,
>)
    ensures
        match found {
            Some(text) => {
                &&& named_captures(groups_of(groups@)).dom().contains(name@)
                &&& named_captures(groups_of(groups@))[name@] == text@
            },
            None => !named_captures(groups_of(groups@)).dom().contains(name@),
        },
{
    let ghost all = groups_of(groups@);
    let mut found: Option<&'a String> = None;
    let mut i: usize = 0;
    while i < groups.len()
        invariant
            i <= groups.len(),
            all == groups_of(groups@),
            match found {
                Some(text) => {
                    &&& named_captures(all.take(i as int)).dom().contains(name@)
                    &&& named_captures(all.take(i as int))[name@] == text@
                },
                None => !named_captures(all.take(i as int)).dom().contains(name@),
            },
        decreases groups.len() - i,
    {
        proof {
            assert(all.take(i + 1).drop_last() =~= all.take(i as int));
            assert(all.take(i + 1).last() == groups@[i as int]@);
        }
        let group = &groups[i];
        match (&group.name, &group.text) {
            (Some(group_name), Some(text)) => {
                if *group_name == *name {
                    found = Some(text);
                }
            },
            _ => {},
        }
        i += 1;
    }
    assert(all.take(groups.len() as int) =~= all);
    found
}

/// Resolves a group name template against the capture groups of a match.
///
/// Each `${name}` is replaced by the text that the group called `name`
/// captured. Everything else is copied as it stands, a `$` without a
/// braced name too. A placeholder whose name no capture group of the match
/// answers to makes the whole resolution fail, with that name.
pub fn resolve_template(template: &str, captures: &Vec<CaptureGroup>) -> (resolved: Result<
    String,
    TemplateSubstitutionError,
>)
    ensures
        match resolved {
            Ok(name) => resolve(template@, named_captures(groups_of(captures@))) == Ok::<
                Seq<char>,
                Seq<char>,
            >(name@),
            Err(e) => resolve(template@, named_captures(groups_of(captures@))) == Err::<
                Seq<char>,
                Seq<char>,
            >(e.placeholder@),
        },
{
    let ghost t = template@;
    let ghost caps = named_captures(groups_of(captures@));
    let chars = chars_of(template);
    let n = chars.len();
    let mut out = String::new();
    let mut copied: usize = 0;
    let mut at: usize = 0;
    while at < n
        invariant
            copied <= at <= n,
            n == t.len(),
            chars@ == t,
            t == template@,
            caps == named_captures(groups_of(captures@)),
            resolve(t, caps) == prepend(
                out@ + t.subrange(copied as int, at as int),
                resolve_from(t, caps, at as int),
            ),
        decreases n - at,
    {
        let ghost pending = out@ + t.subrange(copied as int, at as int);
        let mut end: Option<usize> = None;
        if chars[at] == '$' && at + 1 < n && chars[at + 1] == '{' {
            end = find_closing_brace(&chars, at + 2);
        }
        match end {
            Some(end) => {
                proof {
                    lemma_closing_brace(t, at + 2);
                }
                let placeholder = template.substring_char(at + 2, end).to_owned();
                out.append(template.substring_char(copied, at));
                match captured_text(captures, &placeholder) {
                    Some(text) => {
                        out.append(text.as_str());
                        proof {
                            let rest = resolve_from(t, caps, end + 1);
                            assert(resolve_from(t, caps, at as int) == prepend(text@, rest));
                            assert(t.subrange(end + 1, end + 1) =~= Seq::<char>::empty());
                            if let Ok(tail) = rest {
                                assert(pending + (text@ + tail) =~= (out@ + t.subrange(
                                    end + 1,
                                    end + 1,
                                )) + tail);
                            }
                        }
                        at = end + 1;
                        copied = at;
                    },
                    None => {
                        return Err(TemplateSubstitutionError { placeholder });
                    },
                }
            },
            None => {
                proof {
                    let rest = resolve_from(t, caps, at + 1);
                    assert(placeholder_end(t, at as int) is None);
                    assert(resolve_from(t, caps, at as int) == prepend(seq![t[at as int]], rest));
                    assert(t.subrange(copied as int, at + 1) =~= t.subrange(
                        copied as int,
                        at as int,
                    ) + seq![t[at as int]]);
                    if let Ok(tail) = rest {
                        assert(pending + (seq![t[at as int]] + tail) =~= (out@ + t.subrange(
                            copied as int,
                            at + 1,
                        )) + tail);
                    }
                }
                at += 1;
            },
        }
    }
    out.append(template.substring_char(copied, n));
    proof {
        assert(resolve_from(t, caps, n as int) == Ok::<Seq<char>, Seq<char>>(Seq::empty()));
        assert(out@ + Seq::<char>::empty() =~= out@);
    }
    Ok(out)
}

} // verus!
