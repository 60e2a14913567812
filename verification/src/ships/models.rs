use crate::order::{order_of, text_order};
use crate::types::{NamedJpEn, NamedUrl, UrlTyped};
use std::cmp::Ordering;
use vstd::prelude::*;
use vstd::std_specs::cmp::{PartialEqSpecImpl, PartialOrdSpecImpl};

verus! {

/// A ship, as a value of specifications. The affiliation is a name and a path.
pub ghost struct ShipView {
    pub name: Seq<char>,
    pub en_name: Seq<char>,
    pub description: Seq<char>,
    pub affiliation: (Seq<char>, Seq<char>),
    pub status: Seq<char>,
    pub pic_url: Seq<char>,
    pub non_cannon: bool,
    pub url: Seq<char>,
}

/// A ship. Its key is `url`.
#[derive(Debug)]
pub struct Ship {
    pub name: String,
    pub en_name: String,
    pub description: String,
    pub affiliation: NamedUrl,
    pub status: String,
    pub pic_url: String,
    pub non_cannon: bool,
    pub url: String,
}

impl View for Ship {
    type V = ShipView;

    open spec fn view(&self) -> ShipView {
        ShipView {
            name: self.name@,
            en_name: self.en_name@,
            description: self.description@,
            affiliation: (self.affiliation.name@, self.affiliation.url@),
            status: self.status@,
            pic_url: self.pic_url@,
            non_cannon: self.non_cannon,
            url: self.url@,
        }
    }
}

impl Ship {
    /// The ship at `url` with the names and the description of `named_detail`.
    pub fn new(
        named_detail: NamedJpEn,
        url: String,
        pic_url: String,
        affiliation: NamedUrl,
        status: String,
        non_cannon: bool,
    ) -> (r: Self)
        ensures
            r.name == named_detail.name,
            r.en_name == named_detail.en_name,
            r.description == named_detail.description,
            r.affiliation == affiliation,
            r.status == status,
            r.pic_url == pic_url,
            r.non_cannon == non_cannon,
            r.url == url,
    {
        Self {
            name: named_detail.name,
            en_name: named_detail.en_name,
            description: named_detail.description,
            affiliation,
            status,
            pic_url,
            url,
            non_cannon,
        }
    }
}

impl Default for Ship {
    fn default() -> (r: Self)
        ensures
            r.name@ == Seq::<char>::empty(),
            r.en_name@ == Seq::<char>::empty(),
            r.description@ == Seq::<char>::empty(),
            r.affiliation.name@ == Seq::<char>::empty(),
            r.affiliation.url@ == Seq::<char>::empty(),
            r.status@ == Seq::<char>::empty(),
            r.pic_url@ == Seq::<char>::empty(),
            !r.non_cannon,
            r.url@ == Seq::<char>::empty(),
    {
        Ship {
            name: String::new(),
            en_name: String::new(),
            description: String::new(),
            affiliation: NamedUrl::default(),
            status: String::new(),
            pic_url: String::new(),
            non_cannon: false,
            url: String::new(),
        }
    }
}

impl UrlTyped for Ship {
    open spec fn path(&self) -> Seq<char> {
        self.url@
    }

    fn get_path(&self) -> (r: String) {
        self.url.clone()
    }
}

impl PartialEq for Ship {
    fn eq(&self, other: &Self) -> (r: bool) {
        self.url == other.url
    }
}

impl PartialEqSpecImpl for Ship {
    open spec fn obeys_eq_spec() -> bool {
        true
    }

    open spec fn eq_spec(&self, other: &Self) -> bool {
        self.url@ == other.url@
    }
}

impl Eq for Ship {

}

impl PartialOrd for Ship {
    fn partial_cmp(&self, other: &Self) -> (r: Option<Ordering>) {
        Some(order_of(self.url.as_str(), other.url.as_str()))
    }
}

impl PartialOrdSpecImpl for Ship {
    open spec fn obeys_partial_cmp_spec() -> bool {
        true
    }

    open spec fn partial_cmp_spec(&self, other: &Self) -> Option<Ordering> {
        Some(text_order(self.url@, other.url@))
    }
}

} // verus!
