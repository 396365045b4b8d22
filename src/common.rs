use vstd::prelude::*;
use vstd::string::*;

use crate::text::{copy_opt, opt_view, str_equals};

verus! {

/// The dialect of a monitored feed.
#[derive(Debug, Copy, Clone, PartialEq, Eq, Hash, Structural)]
pub enum FeedType {
    Rss,
    Atom,
}

/// An observation: what one successful check saw of a feed.
#[derive(Clone, Debug)]
pub struct FeedCheckResult {
    pub check_date: String,
    pub title: String,
    pub pub_date: Option<String>,
    pub last_article_title: Option<String>,
    pub last_article_guid: Option<String>,
    pub last_article_pub_date: Option<String>,
    pub last_article_hash: Option<String>,
}

/// The text of an observation.
pub struct CheckView {
    pub check_date: Seq<char>,
    pub title: Seq<char>,
    pub pub_date: Option<Seq<char>>,
    pub last_article_title: Option<Seq<char>>,
    pub last_article_guid: Option<Seq<char>>,
    pub last_article_pub_date: Option<Seq<char>>,
    pub last_article_hash: Option<Seq<char>>,
}

impl View for FeedCheckResult {
    type V = CheckView;

    open spec fn view(&self) -> CheckView {
        CheckView {
            check_date: self.check_date@,
            title: self.title@,
            pub_date: opt_view(self.pub_date),
            last_article_title: opt_view(self.last_article_title),
            last_article_guid: opt_view(self.last_article_guid),
            last_article_pub_date: opt_view(self.last_article_pub_date),
            last_article_hash: opt_view(self.last_article_hash),
        }
    }
}

/// A subscription together with the last observation recorded for it.
#[derive(Clone, Debug)]
pub struct MonitoredFeed {
    pub id: u32,
    pub url: String,
    pub kind: FeedType,
    pub last_check: Option<FeedCheckResult>,
}

/// The text of a subscription.
pub struct MonitoredView {
    pub id: u32,
    pub url: Seq<char>,
    pub kind: FeedType,
    pub last_check: Option<CheckView>,
}

pub open spec fn opt_check_view(o: Option<FeedCheckResult>) -> Option<CheckView> {
    match o {
        Some(c) => Some(c@),
        None => None,
    }
}

impl View for MonitoredFeed {
    type V = MonitoredView;

    open spec fn view(&self) -> MonitoredView {
        MonitoredView {
            id: self.id,
            url: self.url@,
            kind: self.kind,
            last_check: opt_check_view(self.last_check),
        }
    }
}

impl FeedCheckResult {
    /// A copy of this observation.
    pub fn copy(&self) -> (r: FeedCheckResult)
        ensures
            r@ == self@,
    {
        FeedCheckResult {
            check_date: self.check_date.clone(),
            title: self.title.clone(),
            pub_date: copy_opt(&self.pub_date),
            last_article_title: copy_opt(&self.last_article_title),
            last_article_guid: copy_opt(&self.last_article_guid),
            last_article_pub_date: copy_opt(&self.last_article_pub_date),
            last_article_hash: copy_opt(&self.last_article_hash),
        }
    }
}

impl MonitoredFeed {
    /// A copy of this subscription.
    pub fn copy(&self) -> (r: MonitoredFeed)
        ensures
            r@ == self@,
    {
        let last_check = match &self.last_check {
            Some(c) => Some(c.copy()),
            None => None,
        };
        MonitoredFeed { id: self.id, url: self.url.clone(), kind: self.kind, last_check }
    }
}

/// The reason an observation differs from the one recorded before it.
#[derive(Copy, Clone, Debug, PartialEq, Eq, Structural)]
pub enum FeedUpdateKind {
    FirstCheck,
    NewArticle,
    Title,
    LastArticle,
}

/// Why a feed document could not be read.
#[derive(Debug, Clone, PartialEq, Eq, Structural)]
pub enum GoodMorningError {
    /// Malformed markup, with the byte offset where the reader noticed it.
    XmlParse(usize),
    /// Well-formed markup that lacks a mandatory field or attribute, or has it empty.
    MissingFeedInfo,
    /// A document of length zero.
    Empty,
}

/// The kind of a parse failure, without the details it carries.
pub enum Failure {
    XmlParse,
    MissingFeedInfo,
    Empty,
}

impl GoodMorningError {
    pub open spec fn failure(&self) -> Failure {
        match self {
            GoodMorningError::XmlParse(_) => Failure::XmlParse,
            GoodMorningError::MissingFeedInfo => Failure::MissingFeedInfo,
            GoodMorningError::Empty => Failure::Empty,
        }
    }
}

/// What a parse returned, as plain values.
pub open spec fn outcome<T: View>(r: Result<T, GoodMorningError>) -> Result<T::V, Failure> {
    match r {
        Ok(v) => Ok(v@),
        Err(e) => Err(e.failure()),
    }
}

/// Where a run's report goes.
#[derive(Debug, Copy, Clone, PartialEq, Eq, Structural)]
pub enum ReportType {
    Stdout,
    Email,
}

/// The settings of a run.
#[derive(Debug, Clone)]
pub struct Config {
    pub sendgrid_token: String,
    pub mail_to: String,
    pub report_type: ReportType,
}

/// Storage of subscriptions and of their observations.
pub trait SubscriptionRepository {
    fn init(&self);

    fn get_monitored_feeds(&self) -> Vec<MonitoredFeed>;

    fn add_sub(&self, url: &str, kind: FeedType);

    fn add_check(&self, feed: &MonitoredFeed, check: &FeedCheckResult);
}

/// The name a feed type is written with.
pub open spec fn kind_name(kind: FeedType) -> Seq<char> {
    match kind {
        FeedType::Rss => "rss"@,
        FeedType::Atom => "atom"@,
    }
}

/// The feed type written with a name, if any.
pub open spec fn kind_named(s: Seq<char>) -> Option<FeedType> {
    if s == "rss"@ {
        Some(FeedType::Rss)
    } else if s == "atom"@ {
        Some(FeedType::Atom)
    } else {
        None
    }
}

impl FeedType {
    /// Reads a feed type from its name: `rss` or `atom`, case-sensitive.
    pub fn from_name(s: &str) -> (r: Option<FeedType>)
        ensures
            r == kind_named(s@),
    {
        if str_equals(s, "rss") {
            Some(FeedType::Rss)
        } else if str_equals(s, "atom") {
            Some(FeedType::Atom)
        } else {
            None
        }
    }

    /// The name of this feed type.
    pub fn to_string(&self) -> (r: String)
        ensures
            r@ == kind_name(*self),
    {
        match self {
            FeedType::Rss => "rss".to_owned(),
            FeedType::Atom => "atom".to_owned(),
        }
    }
}

impl std::str::FromStr for FeedType {
    type Err = String;

    fn from_str(s: &str) -> Result<FeedType, String> {
        match FeedType::from_name(s) {
            Some(kind) => Ok(kind),
            None => {
                let mut message = "Unknown FeedType ".to_owned();
                message.append(s);
                Err(message)
            },
        }
    }
}

} // verus!
