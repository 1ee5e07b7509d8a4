use vstd::prelude::*;

verus! {

/// An academic or other title put before a name.
#[derive(Debug, Clone)]
pub enum Title {
    Dr,
    Prof,
    Other(String),
}

/// A person's name. `last` is kept but not shown by `to_string`.
#[derive(Debug, Clone)]
pub struct Name {
    pub title: Option<Title>,
    pub first: String,
    pub middle: Option<String>,
    pub last: Option<String>,
}

/// How a title is written.
pub open spec fn title_text(t: Title) -> Seq<char> {
    match t {
        Title::Dr => seq!['D', 'r', '.'],
        Title::Prof => seq!['P', 'r', 'o', 'f', '.'],
        Title::Other(text) => text@,
    }
}

/// A part of a name followed by a space, or nothing for a missing part.
pub open spec fn part(p: Option<Seq<char>>) -> Seq<char> {
    match p {
        Some(text) => text + seq![' '],
        None => Seq::empty(),
    }
}

/// How a name is written: title, first and middle name, each followed by a
/// space when present.
pub open spec fn name_text(n: Name) -> Seq<char> {
    let title = match n.title {
        Some(t) => Some(title_text(t)),
        None => None,
    };
    let middle = match n.middle {
        Some(m) => Some(m@),
        None => None,
    };
    part(title) + part(Some(n.first@)) + part(middle)
}

impl Title {
    pub fn to_string(&self) -> (r: String)
        ensures
            r@ == title_text(*self),
    {
        proof {
            reveal_strlit("Dr.");
            reveal_strlit("Prof.");
        }
        match self {
            Title::Dr => String::from_str("Dr."),
            Title::Prof => String::from_str("Prof."),
            Title::Other(text) => text.clone(),
        }
    }
}

impl Name {
    pub fn new(title: Option<Title>, first: &str, middle: Option<String>, last: Option<String>) -> (r: Name)
        ensures
            r.title == title,
            r.first@ == first@,
            r.middle == middle,
            r.last == last,
    {
        Name { title, first: first.to_owned(), middle, last }
    }

    pub fn to_string(&self) -> (r: String)
        ensures
            r@ == name_text(*self),
    {
        proof {
            reveal_strlit(" ");
        }
        let mut r = String::new();
        if let Some(t) = &self.title {
            let text = t.to_string();
            r.append(text.as_str());
            r.append(" ");
        }
        r.append(self.first.as_str());
        r.append(" ");
        if let Some(m) = &self.middle {
            r.append(m.as_str());
            r.append(" ");
        }
        assert(r@ =~= name_text(*self));
        r
    }
}

} // verus!
