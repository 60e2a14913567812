use crate::order::{order_of, text_order};
use crate::types::{named_url_views, NamedJpEn, NamedUrl, UrlTyped};
use std::cmp::Ordering;
use vstd::prelude::*;
use vstd::std_specs::cmp::{PartialEqSpecImpl, PartialOrdSpecImpl};

verus! {

/// A pirate crew, as a value of specifications. A link is a name and a path.
pub ghost struct PirateView {
    pub name: Seq<char>,
    pub en_name: Seq<char>,
    pub description: Seq<char>,
    pub ship: Seq<(Seq<char>, Seq<char>)>,
    pub captain: Seq<(Seq<char>, Seq<char>)>,
    pub pic_url: Seq<char>,
    pub non_cannon: bool,
    pub url: Seq<char>,
}

/// A pirate crew. Its key is `url`.
#[derive(Debug)]
pub struct Pirate {
    pub name: String,
    pub en_name: String,
    pub description: String,
    pub ship: Vec<NamedUrl>,
    pub captain: Vec<NamedUrl>,
    pub pic_url: String,
    pub non_cannon: bool,
    pub url: String,
}

impl View for Pirate {
    type V = PirateView;

    open spec fn view(&self) -> PirateView {
        PirateView {
            name: self.name@,
            en_name: self.en_name@,
            description: self.description@,
            ship: named_url_views(self.ship@),
            captain: named_url_views(self.captain@),
            pic_url: self.pic_url@,
            non_cannon: self.non_cannon,
            url: self.url@,
        }
    }
}

impl Pirate {
    /// The crew at `url` with the names and the description of `name_detail`.
    pub fn new(
        name_detail: NamedJpEn,
        url: String,
        ship: Vec<NamedUrl>,
        captain: Vec<NamedUrl>,
        pic_url: String,
        non_cannon: bool,
    ) -> (r: Self)
        ensures
            r.name == name_detail.name,
            r.en_name == name_detail.en_name,
            r.description == name_detail.description,
            r.ship == ship,
            r.captain == captain,
            r.pic_url == pic_url,
            r.non_cannon == non_cannon,
            r.url == url,
    {
        Self {
            name: name_detail.name,
            en_name: name_detail.en_name,
            description: name_detail.description,
            ship,
            captain,
            pic_url,
            url,
            non_cannon,
        }
    }
}

impl UrlTyped for Pirate {
    open spec fn path(&self) -> Seq<char> {
        self.url@
    }

    fn get_path(&self) -> (r: String) {
        self.url.clone()
    }
}

impl PartialEq for Pirate {
    fn eq(&self, other: &Self) -> (r: bool) {
        self.url == other.url
    }
}

impl PartialEqSpecImpl for Pirate {
    open spec fn obeys_eq_spec() -> bool {
        true
    }

    open spec fn eq_spec(&self, other: &Self) -> bool {
        self.url@ == other.url@
    }
}

impl Eq for Pirate {

}

impl PartialOrd for Pirate {
    fn partial_cmp(&self, other: &Self) -> (r: Option<Ordering>) {
        Some(order_of(self.url.as_str(), other.url.as_str()))
    }
}

impl PartialOrdSpecImpl for Pirate {
    open spec fn obeys_partial_cmp_spec() -> bool {
        true
    }

    open spec fn partial_cmp_spec(&self, other: &Self) -> Option<Ordering> {
        Some(text_order(self.url@, other.url@))
    }
}

} // verus!
