use super::types::{DfSubType, DfType, HasDevilFruit};
use crate::order::{order_of, text_order};
use crate::text::{concat, decimal, decimal_string};
use crate::types::UrlTyped;
use std::cmp::Ordering;
use vstd::prelude::*;
use vstd::std_specs::cmp::{PartialEqSpecImpl, PartialOrdSpecImpl};

verus! {

/// What the wiki says of one class of devil fruit, as a value of specifications.
pub ghost struct DfTypeInfoView {
    pub df_type: DfType,
    pub cannon_count: u32,
    pub non_cannon_count: u32,
    pub description: Seq<char>,
}

/// What the wiki says of one class of devil fruit.
#[derive(Debug)]
pub struct DfTypeInfo {
    pub df_type: DfType,
    pub cannon_count: u32,
    pub non_cannon_count: u32,
    pub description: String,
}

impl Default for DfTypeInfo {
    fn default() -> (r: Self)
        ensures
            r.df_type == DfType::Undetermined,
            r.cannon_count == 0,
            r.non_cannon_count == 0,
            r.description@ == Seq::<char>::empty(),
    {
        DfTypeInfo {
            df_type: DfType::Undetermined,
            cannon_count: 0,
            non_cannon_count: 0,
            description: String::new(),
        }
    }
}

impl View for DfTypeInfo {
    type V = DfTypeInfoView;

    open spec fn view(&self) -> DfTypeInfoView {
        DfTypeInfoView {
            df_type: self.df_type,
            cannon_count: self.cannon_count,
            non_cannon_count: self.non_cannon_count,
            description: self.description@,
        }
    }
}

impl DfTypeInfo {
    /// A record of what is said of the class `df_type`.
    pub fn new(df_type: DfType, cannon_count: u32, non_cannon_count: u32, description: String) -> (r:
        Self)
        ensures
            r.df_type == df_type,
            r.cannon_count == cannon_count,
            r.non_cannon_count == non_cannon_count,
            r.description == description,
    {
        DfTypeInfo { df_type, cannon_count, non_cannon_count, description }
    }

    /// The record written out on one line.
    pub open spec fn line(&self) -> Seq<char> {
        "(df_type: "@ + self.df_type.name() + ", cannon: "@ + decimal(self.cannon_count as nat)
            + ", non-cannon: "@ + decimal(self.non_cannon_count as nat) + ", description: "@
            + self.description@ + ")"@
    }

    /// The record written out on one line.
    pub fn to_text(&self) -> (r: String)
        ensures
            r@ == self.line(),
    {
        let mut out = concat("(df_type: ", self.df_type.to_text().as_str());
        out.append(", cannon: ");
        out.append(decimal_string(self.cannon_count as u64).as_str());
        out.append(", non-cannon: ");
        out.append(decimal_string(self.non_cannon_count as u64).as_str());
        out.append(", description: ");
        out.append(self.description.as_str());
        out.append(")");
        out
    }
}

/// The names of a devil fruit and what is said of it.
#[derive(Debug)]
pub struct DevilFruitName {
    pub name: String,
    pub en_name: String,
    pub description: String,
}

impl DevilFruitName {
    /// The names of a fruit and what is said of it.
    pub fn new(name: String, en_name: String, description: String) -> (r: Self)
        ensures
            r.name == name,
            r.en_name == en_name,
            r.description == description,
    {
        Self { name, en_name, description }
    }
}

/// A devil fruit, as a value of specifications.
pub ghost struct DevilFruitView {
    pub df_type: DfType,
    pub df_sub_type: Option<DfSubType>,
    pub name: Seq<char>,
    pub en_name: Seq<char>,
    pub description: Seq<char>,
    pub pic_url: Seq<char>,
    pub df_url: Seq<char>,
}

/// A devil fruit. Its key is `df_url`.
#[derive(Debug)]
pub struct DevilFruit {
    pub df_type: DfType,
    pub df_sub_type: Option<DfSubType>,
    pub name: String,
    pub en_name: String,
    pub description: String,
    pub pic_url: String,
    pub df_url: String,
}

/// How an optional kind is written out.
pub open spec fn sub_type_text(sub_type: Option<DfSubType>) -> Seq<char> {
    match sub_type {
        Some(t) => "Some("@ + t.name() + ")"@,
        None => "None"@,
    }
}

impl View for DevilFruit {
    type V = DevilFruitView;

    open spec fn view(&self) -> DevilFruitView {
        DevilFruitView {
            df_type: self.df_type,
            df_sub_type: self.df_sub_type,
            name: self.name@,
            en_name: self.en_name@,
            description: self.description@,
            pic_url: self.pic_url@,
            df_url: self.df_url@,
        }
    }
}

impl DevilFruit {
    /// A Zoan fruit, of the kind `sub_type` if it has one.
    pub fn zoan(
        sub_type: Option<DfSubType>,
        name_detail: DevilFruitName,
        pic_url: String,
        df_url: String,
    ) -> (r: Self)
        ensures
            r.df_type == DfType::Zoan,
            r.df_sub_type == sub_type,
            r.name == name_detail.name,
            r.en_name == name_detail.en_name,
            r.description == name_detail.description,
            r.pic_url == pic_url,
            r.df_url == df_url,
    {
        Self {
            df_type: DfType::Zoan,
            df_sub_type: sub_type,
            name: name_detail.name,
            en_name: name_detail.en_name,
            description: name_detail.description,
            pic_url,
            df_url,
        }
    }

    /// A fruit of the class `df_type`, which has no kinds.
    pub fn non_zoan(
        df_type: DfType,
        name_detail: DevilFruitName,
        pic_url: String,
        df_url: String,
    ) -> (r: Self)
        ensures
            r.df_type == df_type,
            r.df_sub_type == None::<DfSubType>,
            r.name == name_detail.name,
            r.en_name == name_detail.en_name,
            r.description == name_detail.description,
            r.pic_url == pic_url,
            r.df_url == df_url,
    {
        Self {
            df_type,
            df_sub_type: None,
            name: name_detail.name,
            en_name: name_detail.en_name,
            description: name_detail.description,
            pic_url,
            df_url,
        }
    }

    /// The fruit written out on one line.
    pub open spec fn line(&self) -> Seq<char> {
        "(df_type: "@ + self.df_type.name() + ", df_sub_type: "@ + sub_type_text(self.df_sub_type)
            + ", name: "@ + self.name@ + ", english name: "@ + self.en_name@ + ", pic: "@
            + self.pic_url@ + ", url: "@ + self.df_url@ + ", description: "@ + self.description@
            + ")"@
    }

    /// The fruit written out on one line.
    pub fn to_text(&self) -> (r: String)
        ensures
            r@ == self.line(),
    {
        let mut out = concat("(df_type: ", self.df_type.to_text().as_str());
        out.append(", df_sub_type: ");
        match self.df_sub_type {
            Some(t) => {
                out.append("Some(");
                out.append(t.to_text().as_str());
                out.append(")");
            },
            None => {
                out.append("None");
            },
        }
        out.append(", name: ");
        out.append(self.name.as_str());
        out.append(", english name: ");
        out.append(self.en_name.as_str());
        out.append(", pic: ");
        out.append(self.pic_url.as_str());
        out.append(", url: ");
        out.append(self.df_url.as_str());
        out.append(", description: ");
        out.append(self.description.as_str());
        out.append(")");
        assert(out@ =~= self.line());
        out
    }
}

impl HasDevilFruit for DevilFruit {
    open spec fn class(&self) -> DfType {
        self.df_type
    }

    fn df_type(&self) -> (r: DfType) {
        self.df_type
    }
}

impl UrlTyped for DevilFruit {
    open spec fn path(&self) -> Seq<char> {
        self.df_url@
    }

    fn get_path(&self) -> (r: String) {
        self.df_url.clone()
    }
}

impl PartialEq for DevilFruit {
    fn eq(&self, other: &Self) -> (r: bool) {
        self.df_url == other.df_url
    }
}

impl PartialEqSpecImpl for DevilFruit {
    open spec fn obeys_eq_spec() -> bool {
        true
    }

    open spec fn eq_spec(&self, other: &Self) -> bool {
        self.df_url@ == other.df_url@
    }
}

impl Eq for DevilFruit {

}

impl PartialOrd for DevilFruit {
    fn partial_cmp(&self, other: &Self) -> (r: Option<Ordering>) {
        Some(order_of(self.df_url.as_str(), other.df_url.as_str()))
    }
}

impl PartialOrdSpecImpl for DevilFruit {
    open spec fn obeys_partial_cmp_spec() -> bool {
        true
    }

    open spec fn partial_cmp_spec(&self, other: &Self) -> Option<Ordering> {
        Some(text_order(self.df_url@, other.df_url@))
    }
}

/// Someone who ate a devil fruit.
#[derive(Debug)]
pub struct DfUser {
    pub id: String,
    pub name: String,
}

/// A character of the story.
#[derive(Debug)]
pub struct Character {
    pub id: String,
    pub name: String,
    pub pic_url: String,
}

impl UrlTyped for Character {
    open spec fn path(&self) -> Seq<char> {
        "/wiki/Character:"@ + self.id@
    }

    fn get_path(&self) -> (r: String) {
        concat("/wiki/Character:", self.id.as_str())
    }
}

} // verus!
