//! Plain data records carried between the service's collaborators: rows read
//! from storage and the request bodies that ask for changes to them. They
//! hold no behaviour; the authentication core decides whether the caller
//! presenting them may act at all.

use vstd::prelude::*;

verus! {

/// A user row: stable identifiers, display data, and the registration
/// instant its bearer token derives from.
#[derive(Clone, Debug)]
pub struct User {
    /// Row increment id.
    pub id: i64,
    /// The unique user identifier.
    pub user_id: String,
    /// The user hash (aka the user id presented by callers).
    pub bearer: String,
    /// The user's name.
    pub user_name: String,
    /// The user's email.
    pub email: String,
    /// The user's registration date.
    pub registration_date: i64,
}

/// A class row: its name, its owner, and whether the whitelist is enforced.
#[derive(Clone, Debug)]
pub struct Class {
    /// The class name.
    pub class_name: String,
    /// Unique class owner identifier.
    pub owner_id: String,
    /// Whether to use the class whitelist (nonzero means enabled).
    pub enable_whitelist: i64,
}

/// An announcement posted to a class.
#[derive(Clone, Debug)]
pub struct Announcement {
    /// The announcement author's name.
    pub author_name: String,
    /// The announcement title.
    pub title: String,
    /// The announcement's content.
    pub description: String,
    /// Any attachment posted with the announcement.
    pub attachment: String,
}

/// A lesson within a class unit.
#[derive(Clone, Debug)]
pub struct Lesson {
    /// The lesson title.
    pub title: String,
    /// The lesson description.
    pub description: String,
    /// The lesson's video URL.
    pub video: String,
    /// The lesson homework that can be submitted and marked.
    pub work: String,
    /// The lesson homework solutions.
    pub work_solutions: String,
}

/// A class unit row.
#[derive(Clone, Debug)]
pub struct Unit {
    /// The unique unit identifier.
    pub unit_id: String,
    /// The unit's name.
    pub unit_name: String,
    /// Whether students can access this unit yet (nonzero means locked).
    pub locked: i64,
}

/// One whitelisted user of a class.
#[derive(Clone, Debug)]
pub struct Whitelist {
    /// The whitelisted user's identifier.
    pub whitelisted_user: String,
}

/// A submitted piece of work.
#[derive(Clone, Debug)]
pub struct Submission {
    /// The identifier of the user who submitted the work.
    pub submitter_bearer: String,
    /// The unique identifier of the submission.
    pub submission_id: String,
    /// The date the work was submitted.
    pub submission_date: i64,
    /// The submission data: the file, the answers, and so on.
    pub data: String,
}

/// Requested changes to a user's profile.
#[derive(Clone, Debug)]
pub struct UserDataBody {
    /// The new user name.
    pub user_name: String,
    /// The new email.
    pub email: String,
}

/// A requested whitelist change.
#[derive(Clone, Debug)]
pub struct WhitelistDataBody {
    /// The user to add or remove.
    pub user: String,
}

/// A requested announcement change.
#[derive(Clone, Debug)]
pub struct AnnouncementDataBody {
    /// The announcement's unique identifier.
    pub announcement_id: String,
    /// The announcement attachment.
    pub attachment: String,
    /// The announcement content.
    pub description: String,
    /// The title of the announcement.
    pub title: String,
    /// The name of the user posting the announcement.
    pub author_name: String,
}

/// A requested class change.
#[derive(Clone, Debug)]
pub struct ClassDataBody {
    /// The new class name.
    pub class_name: String,
    /// Whether to use the class whitelist (nonzero means enabled).
    pub enable_whitelist: i64,
}

/// A requested unit change.
#[derive(Clone, Debug)]
pub struct UnitDataBody {
    /// The unit's unique identifier.
    pub unit_id: String,
    /// The unit's name.
    pub unit_name: String,
    /// Whether the unit is locked (nonzero means locked).
    pub locked: i64,
}

/// A requested submission change.
#[derive(Clone, Debug)]
pub struct SubmissionDataBody {
    /// The submission's unique identifier.
    pub submission_id: String,
    /// The submission data.
    pub data: String,
}

} // verus!
