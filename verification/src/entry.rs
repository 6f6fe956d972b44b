use vstd::prelude::*;
use vstd::string::*;

verus! {

/// The full note text: a heading line, a properties drawer holding the
/// creation timestamp, then the body.
pub open spec fn org_text(title: Seq<char>, created: Seq<char>, body: Seq<char>) -> Seq<char> {
    "INBOX "@ + title + "\n:PROPERTIES:\n:CREATED:  ["@ + created + "]\n:END:\n"@ + body
}

/// Relies on `chrono::Local::now` and chrono's `format`: a wall-clock
/// timestamp rendered as year-month-day, weekday, hour and minute.
/// Nothing is promised of its value, which depends on the clock.
#[verifier::external_body]
fn current_timestamp() -> String {
    chrono::Local::now().format("%Y-%m-%d %a %H:%M").to_string()
}

/// A note: a title and a body, both enriched the same way.
pub struct OrgEntry {
    pub title: String,
    pub body: String,
}

impl OrgEntry {
    pub fn new(title: String, body: String) -> (r: Self)
        ensures
            r.title == title,
            r.body == body,
    {
        Self { title, body }
    }

    /// Applies given function to transform both title and body.
    pub fn apply_to_text<F: Fn(&String) -> String>(&self, f: F) -> (r: Self)
        requires
            call_requires(f, (&self.title,)),
            call_requires(f, (&self.body,)),
        ensures
            call_ensures(f, (&self.title,), r.title),
            call_ensures(f, (&self.body,), r.body),
    {
        let title = f(&self.title);
        let body = f(&self.body);
        Self::new(title, body)
    }

    /// Renders the note around a given creation timestamp.
    pub fn render_orgmode(&self, created: &str) -> (r: String)
        ensures
            r@ == org_text(self.title@, created@, self.body@),
    {
        let mut out = String::from_str("INBOX ");
        out.append(self.title.as_str());
        out.append("\n:PROPERTIES:\n:CREATED:  [");
        out.append(created);
        out.append("]\n:END:\n");
        out.append(self.body.as_str());
        proof {
            assert(out@ =~= org_text(self.title@, created@, self.body@));
        }
        out
    }

    /// Renders OrgEntry as org mode task with created property containing
    /// current local time.
    pub fn to_orgmode(&self) -> (r: String)
        ensures
            exists|created: Seq<char>| r@ == org_text(self.title@, created, self.body@),
    {
        let now = current_timestamp();
        let r = self.render_orgmode(now.as_str());
        proof {
            assert(r@ == org_text(self.title@, now@, self.body@));
        }
        r
    }
}

pub struct ArgumentParser;

impl ArgumentParser {
    /// Accepts 1 or 2 command line arguments representing title and body
    /// of `OrgEntry` respectively (the first argument is the program's
    /// own name).
    pub fn parse(args: &[String]) -> (r: Option<OrgEntry>)
        ensures
            args@.len() == 2 ==> (r matches Some(e) && e.title@ == args@[1]@ && e.body@.len()
                == 0),
            args@.len() == 3 ==> (r matches Some(e) && e.title@ == args@[1]@ && e.body@
                == args@[2]@),
            args@.len() != 2 && args@.len() != 3 ==> r is None,
    {
        if args.len() == 2 {
            let title = args[1].clone();
            Some(OrgEntry::new(title, String::new()))
        } else if args.len() == 3 {
            let title = args[1].clone();
            let body = args[2].clone();
            Some(OrgEntry::new(title, body))
        } else {
            None
        }
    }
}

} // verus!
