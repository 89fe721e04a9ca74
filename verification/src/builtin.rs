//! The built-in aliases: common shorthands for widespread applications.
//!
//! The lists are registered in the order written, and a token keeps the name
//! it was first registered with.

use vstd::prelude::*;

verus! {

/// Design and media production tools.
pub open spec fn design_aliases() -> Seq<(&'static str, &'static str)> {
    seq![
        ("ps", "photoshop"),
        ("lr", "lightroom"),
        ("pr", "premiere"),
        ("ae", "after effects"),
        ("ai", "illustrator"),
        ("id", "indesign"),
        ("au", "audition"),
        ("dw", "dreamweaver"),
        ("an", "animate"),
        ("pl", "prelude"),
        ("br", "bridge"),
        ("ch", "character animator"),
        ("me", "media encoder"),
        ("ic", "incopy"),
        ("fs", "fuse"),
        ("sc", "scout"),
        ("st", "stock"),
        ("xd", "xd"),
        ("dc", "acrobat"),
        ("dpp", "digital photo professional"),
        ("fcpx", "final cut pro"),
        ("c4d", "cinema 4d"),
        ("sketch", "sketch"),
        ("figma", "figma"),
        ("photoshop", "photoshop"),
        ("illustrator", "illustrator"),
        ("premiere", "premiere"),
        ("aftereffects", "after effects"),
        ("lightroom", "lightroom"),
    ]
}

/// The list of `design_aliases`.
pub fn design_list() -> (list: Vec<(&'static str, &'static str)>)
    ensures
        list@ == design_aliases(),
{
    let list = vec![
        ("ps", "photoshop"),
        ("lr", "lightroom"),
        ("pr", "premiere"),
        ("ae", "after effects"),
        ("ai", "illustrator"),
        ("id", "indesign"),
        ("au", "audition"),
        ("dw", "dreamweaver"),
        ("an", "animate"),
        ("pl", "prelude"),
        ("br", "bridge"),
        ("ch", "character animator"),
        ("me", "media encoder"),
        ("ic", "incopy"),
        ("fs", "fuse"),
        ("sc", "scout"),
        ("st", "stock"),
        ("xd", "xd"),
        ("dc", "acrobat"),
        ("dpp", "digital photo professional"),
        ("fcpx", "final cut pro"),
        ("c4d", "cinema 4d"),
        ("sketch", "sketch"),
        ("figma", "figma"),
        ("photoshop", "photoshop"),
        ("illustrator", "illustrator"),
        ("premiere", "premiere"),
        ("aftereffects", "after effects"),
        ("lightroom", "lightroom"),
    ];
    assert(list@ =~= design_aliases());
    list
}

/// Messaging and office applications.
pub open spec fn office_aliases() -> Seq<(&'static str, &'static str)> {
    seq![
        ("wx", "wechat"),
        ("\u{5fae}\u{4fe1}", "wechat"),
        ("qq", "qq"),
        ("dd", "dingtalk"),
        ("\u{9489}\u{9489}", "dingtalk"),
        ("fs", "feishu"),
        ("\u{98de}\u{4e66}", "feishu"),
        ("lark", "feishu"),
        ("word", "microsoft word"),
        ("excel", "microsoft excel"),
        ("ppt", "microsoft powerpoint"),
        ("wps", "wpsoffice"),
        ("pdf", "acrobat"),
        ("obs", "obs studio"),
        ("yx", "neteasemail"),
        ("\u{90ae}\u{7bb1}", "mail"),
        ("notes", "notes"),
        ("memo", "notes"),
        ("wechat", "wechat"),
        ("dingtalk", "dingtalk"),
        ("feishu", "feishu"),
    ]
}

/// The list of `office_aliases`.
pub fn office_list() -> (list: Vec<(&'static str, &'static str)>)
    ensures
        list@ == office_aliases(),
{
    let list = vec![
        ("wx", "wechat"),
        ("\u{5fae}\u{4fe1}", "wechat"),
        ("qq", "qq"),
        ("dd", "dingtalk"),
        ("\u{9489}\u{9489}", "dingtalk"),
        ("fs", "feishu"),
        ("\u{98de}\u{4e66}", "feishu"),
        ("lark", "feishu"),
        ("word", "microsoft word"),
        ("excel", "microsoft excel"),
        ("ppt", "microsoft powerpoint"),
        ("wps", "wpsoffice"),
        ("pdf", "acrobat"),
        ("obs", "obs studio"),
        ("yx", "neteasemail"),
        ("\u{90ae}\u{7bb1}", "mail"),
        ("notes", "notes"),
        ("memo", "notes"),
        ("wechat", "wechat"),
        ("dingtalk", "dingtalk"),
        ("feishu", "feishu"),
    ];
    assert(list@ =~= office_aliases());
    list
}

/// Video, music and assistants.
pub open spec fn media_aliases() -> Seq<(&'static str, &'static str)> {
    seq![
        ("jy", "videofusion"),
        ("\u{526a}\u{6620}", "videofusion"),
        ("capcut", "videofusion"),
        ("vf", "videofusion"),
        ("db", "doubao"),
        ("\u{8c46}\u{5305}", "doubao"),
        ("doubao", "doubao"),
        ("videofusion", "videofusion"),
        ("db", "douban"),
        ("dy", "douyin"),
        ("bili", "bilibili"),
        ("bz", "bilibili"),
        ("music", "music"),
        ("\u{7f51}\u{6613}\u{4e91}", "neteasemusic"),
        ("spotify", "spotify"),
        ("douyin", "douyin"),
        ("tiktok", "douyin"),
        ("jianying", "videofusion"),
        ("jianyingpro", "videofusion"),
    ]
}

/// The list of `media_aliases`.
pub fn media_list() -> (list: Vec<(&'static str, &'static str)>)
    ensures
        list@ == media_aliases(),
{
    let list = vec![
        ("jy", "videofusion"),
        ("\u{526a}\u{6620}", "videofusion"),
        ("capcut", "videofusion"),
        ("vf", "videofusion"),
        ("db", "doubao"),
        ("\u{8c46}\u{5305}", "doubao"),
        ("doubao", "doubao"),
        ("videofusion", "videofusion"),
        ("db", "douban"),
        ("dy", "douyin"),
        ("bili", "bilibili"),
        ("bz", "bilibili"),
        ("music", "music"),
        ("\u{7f51}\u{6613}\u{4e91}", "neteasemusic"),
        ("spotify", "spotify"),
        ("douyin", "douyin"),
        ("tiktok", "douyin"),
        ("jianying", "videofusion"),
        ("jianyingpro", "videofusion"),
    ];
    assert(list@ =~= media_aliases());
    list
}

/// Document suites.
pub open spec fn productivity_aliases() -> Seq<(&'static str, &'static str)> {
    seq![
        ("wp", "wpsoffice"),
        ("wps", "wpsoffice"),
        ("word", "microsoft word"),
        ("excel", "microsoft excel"),
        ("ppt", "microsoft powerpoint"),
        ("pages", "pages"),
        ("numbers", "numbers"),
        ("keynote", "keynote"),
    ]
}

/// The list of `productivity_aliases`.
pub fn productivity_list() -> (list: Vec<(&'static str, &'static str)>)
    ensures
        list@ == productivity_aliases(),
{
    let list = vec![
        ("wp", "wpsoffice"),
        ("wps", "wpsoffice"),
        ("word", "microsoft word"),
        ("excel", "microsoft excel"),
        ("ppt", "microsoft powerpoint"),
        ("pages", "pages"),
        ("numbers", "numbers"),
        ("keynote", "keynote"),
    ];
    assert(list@ =~= productivity_aliases());
    list
}

/// Browsers, system tools and developer tools.
pub open spec fn developer_aliases() -> Seq<(&'static str, &'static str)> {
    seq![
        ("llq", "browser"),
        ("\u{6d4f}\u{89c8}\u{5668}", "browser"),
        ("safari", "safari"),
        ("chrome", "google chrome"),
        ("edge", "microsoft edge"),
        ("fd", "finder"),
        ("\u{8bbf}\u{8fbe}", "finder"),
        ("zd", "terminal"),
        ("\u{7ec8}\u{7aef}", "terminal"),
        ("iterm", "iterm"),
        ("code", "visual studio code"),
        ("vs", "visual studio code"),
        ("vscode", "visual studio code"),
        ("st", "sublime text"),
        ("idea", "intellij idea"),
        ("webstorm", "webstorm"),
        ("py", "pycharm"),
        ("git", "github"),
        ("postman", "postman"),
        ("docker", "docker"),
    ]
}

/// The list of `developer_aliases`.
pub fn developer_list() -> (list: Vec<(&'static str, &'static str)>)
    ensures
        list@ == developer_aliases(),
{
    let list = vec![
        ("llq", "browser"),
        ("\u{6d4f}\u{89c8}\u{5668}", "browser"),
        ("safari", "safari"),
        ("chrome", "google chrome"),
        ("edge", "microsoft edge"),
        ("fd", "finder"),
        ("\u{8bbf}\u{8fbe}", "finder"),
        ("zd", "terminal"),
        ("\u{7ec8}\u{7aef}", "terminal"),
        ("iterm", "iterm"),
        ("code", "visual studio code"),
        ("vs", "visual studio code"),
        ("vscode", "visual studio code"),
        ("st", "sublime text"),
        ("idea", "intellij idea"),
        ("webstorm", "webstorm"),
        ("py", "pycharm"),
        ("git", "github"),
        ("postman", "postman"),
        ("docker", "docker"),
    ];
    assert(list@ =~= developer_aliases());
    list
}

/// System utilities.
pub open spec fn system_aliases() -> Seq<(&'static str, &'static str)> {
    seq![
        ("sz", "settings"),
        ("\u{8bbe}\u{7f6e}", "settings"),
        ("jh", "calculator"),
        ("\u{8ba1}\u{7b97}\u{5668}", "calculator"),
        ("activity", "activity monitor"),
        ("monitor", "activity monitor"),
        ("disk", "disk utility"),
        ("keychain", "keychain access"),
        ("console", "console"),
    ]
}

/// The list of `system_aliases`.
pub fn system_list() -> (list: Vec<(&'static str, &'static str)>)
    ensures
        list@ == system_aliases(),
{
    let list = vec![
        ("sz", "settings"),
        ("\u{8bbe}\u{7f6e}", "settings"),
        ("jh", "calculator"),
        ("\u{8ba1}\u{7b97}\u{5668}", "calculator"),
        ("activity", "activity monitor"),
        ("monitor", "activity monitor"),
        ("disk", "disk utility"),
        ("keychain", "keychain access"),
        ("console", "console"),
    ];
    assert(list@ =~= system_aliases());
    list
}

/// Every built-in alias, in registration order.
pub open spec fn builtin_aliases() -> Seq<(&'static str, &'static str)> {
    design_aliases() + office_aliases() + media_aliases() + productivity_aliases()
        + developer_aliases() + system_aliases()
}

} // verus!
