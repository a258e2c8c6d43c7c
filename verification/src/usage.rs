//! The help text of the command-line tool.

use vstd::prelude::*;
use vstd::string::*;

verus! {

/// The version of the tool.
pub const VERSION: &'static str = "1.3.0";

/// The help text up to the version of the tool.
pub const USAGE_HEAD: &'static str = "\n   ___ _                  _        __\n  / __\\ |__   __ _ _ __  (_) ___  / /  ___   __ _\n / /  | '_ \\ / _' | '_ \\ | |/ _ \\/ /  / _ \\ / _' |\n/ /___| | | | (_| | | | || |  __/ /__| (_) | (_| |\n\\____/|_| |_|\\__,_|_| |_|/ |\\___\\____/\\___/ \\__, |\n                       |__/                 |___/\n\n  v: ";

/// The help text after the version of the tool.
pub const USAGE_TAIL: &'static str = " - https://github.com/sayjeyhi/chanjelog\n\nflag  |  description\n-----------------------------------------------------\n-h    |  show help\n-r    |  *{string} git repo url e.g: git.com/project.git\n-f    |  {string} a file path to set version init with -s search format e.g: 'docker-compose.yml'\n-s    |  {string} search pattern in version file e.g: '- DEPLOY_VERSION=[0-9]*\\.[0-9]*\\.[0-9]*'\n-p    |  {string} search replace pattern in version file e.g: '- DEPLOY_VERSION='\n-u    |  {string} jira tasks prefix to automaticly convery #[0-9]* to jira links in commit messages e.g: 'https://jira.site.com/browse/SP-'\n-g    |  {boolean} to control adding tag on git or not e.g: [1|0]\n-v    |  {string} to control version increase type e.g: ['patch'|'minor'|'major'|'prere'|'build']\n-c    |  {boolean} to control update changeslog.md file e.g: [1|0]\n\nYou should have CI_USER and CI_ACCESS_TOKEN variables to allow ci to update your git.\n---\nAn open source hack by @sayjeyhi - https://sayjeyhi.com with SemVer2.0.0\n";

/// The help text: the banner, the version of the tool and the table of the
/// flags.
pub open spec fn usage_text() -> Seq<char> {
    USAGE_HEAD@ + VERSION@ + USAGE_TAIL@
}

/// The help text of the tool.
pub fn usage() -> (text: String)
    ensures
        text@ == usage_text(),
{
    let mut text = String::from_str(USAGE_HEAD);
    text.append(VERSION);
    text.append(USAGE_TAIL);
    text
}

} // verus!
