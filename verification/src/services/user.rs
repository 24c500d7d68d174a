use vstd::prelude::*;
use crate::named_map::{NamedMap, table, lemma_table_push, lemma_table_step, lemma_table_names, row_view};
use crate::num::{parse_u32, parse_u32_chars};
use crate::text::{concat2, concat3, lines, lines_of_str, seqs, split_char, split_on, string_from, strs};

verus! {

/// A user account as the daemon reports it.
pub struct UserInfo {
    pub uid: u32,
    pub gid: u32,
    pub comment: String,
    pub home: String,
}

/// What a `UserInfo` holds.
pub struct UserInfoView {
    pub uid: u32,
    pub gid: u32,
    pub comment: Seq<char>,
    pub home: Seq<char>,
}

impl View for UserInfo {
    type V = UserInfoView;

    open spec fn view(&self) -> UserInfoView {
        UserInfoView { uid: self.uid, gid: self.gid, comment: self.comment@, home: self.home@ }
    }
}

/// The account that one line of `/etc/passwd` describes: its `:`-separated fields
/// are name, password, uid, gid, comment and home; a line with fewer than six
/// fields or with a uid or gid that is not a `u32` describes none, and of the
/// others only root (uid 0) and regular users (uid 1000 and up) are shown.
pub open spec fn user_row(line: Seq<char>) -> Option<(Seq<char>, UserInfoView)> {
    let c = split_char(line, ':');
    if c.len() < 6 {
        None
    } else {
        match (parse_u32(c[2]), parse_u32(c[3])) {
            (Some(uid), Some(gid)) => if uid == 0 || uid >= 1000 {
                Some((c[0], UserInfoView { uid, gid, comment: c[4], home: c[5] }))
            } else {
                None
            },
            _ => None,
        }
    }
}

/// The accounts that the lines describe, by name.
pub open spec fn user_table(ls: Seq<Seq<char>>) -> Map<Seq<char>, UserInfoView> {
    table(ls.map_values(|l: Seq<char>| user_row(l)))
}

/// The account that one line describes.
fn user_row_of(line: &Vec<char>) -> (r: Option<(String, UserInfo)>)
    ensures
        row_view(r) == user_row(line@),
{
    let c = split_on(line, ':');
    if c.len() < 6 {
        return None;
    }
    assert(seqs(c@)[2] == c@[2]@);
    assert(seqs(c@)[3] == c@[3]@);
    assert(seqs(c@)[0] == c@[0]@);
    assert(seqs(c@)[4] == c@[4]@);
    assert(seqs(c@)[5] == c@[5]@);
    let uid = match parse_u32_chars(&c[2]) {
        Some(u) => u,
        None => return None,
    };
    let gid = match parse_u32_chars(&c[3]) {
        Some(g) => g,
        None => return None,
    };
    if uid == 0 || uid >= 1000 {
        let info = UserInfo { uid, gid, comment: string_from(&c[4]), home: string_from(&c[5]) };
        Some((string_from(&c[0]), info))
    } else {
        None
    }
}

/// Every account that a listing shows is root or a regular user.
pub proof fn law_listed_users_are_root_or_regular(ls: Seq<Seq<char>>, name: Seq<char>)
    requires
        user_table(ls).contains_key(name),
    ensures
        user_table(ls)[name].uid == 0 || user_table(ls)[name].uid >= 1000,
{
    let rows = ls.map_values(|l: Seq<char>| user_row(l));
    lemma_table_names(rows, name);
    let i = choose|i: int| 0 <= i < rows.len() && #[trigger] rows[i] == Some((name, table(rows)[name]));
    assert(rows[i] == user_row(ls[i]));
}

/// Manages the user accounts.
pub struct User;

impl User {
    /// The accounts that a `/etc/passwd` text lists, by name.
    pub fn parse_passwd(content: &str) -> (m: NamedMap<UserInfo>)
        ensures
            m.view() == user_table(lines(content@)),
    {
        let ls = lines_of_str(content);
        let ghost rows = seqs(ls@).map_values(|l: Seq<char>| user_row(l));
        let mut m = NamedMap::new();
        let mut i: usize = 0;
        while i < ls.len()
            invariant
                i <= ls.len(),
                rows == seqs(ls@).map_values(|l: Seq<char>| user_row(l)),
                m.view() == table(rows.take(i as int)),
            decreases ls.len() - i,
        {
            proof {
                lemma_table_step(rows, i as int);
            }
            let r = user_row_of(&ls[i]);
            m.insert_row(r);
            i = i + 1;
        }
        assert(rows.take(ls.len() as int) =~= rows);
        m
    }

    /// The arguments of the `useradd` run: a home directory is made, and the comment is
    /// passed only when it is not empty.
    pub fn useradd_args(name: &str, comment: &str) -> (a: Vec<String>)
        ensures
            comment@.len() > 0 ==> strs(a@) == seq!["-m"@, "-c"@, comment@, name@],
            comment@.len() == 0 ==> strs(a@) == seq!["-m"@, name@],
    {
        if comment.is_empty() {
            let a = vec!["-m".to_owned(), name.to_owned()];
            assert(strs(a@) =~= seq!["-m"@, name@]);
            a
        } else {
            let a = vec!["-m".to_owned(), "-c".to_owned(), comment.to_owned(), name.to_owned()];
            assert(strs(a@) =~= seq!["-m"@, "-c"@, comment@, name@]);
            a
        }
    }

    /// The line that `chpasswd` reads on its standard input to give the user `name` the
    /// password `password`: no shell stands between, so both reach it as they are.
    pub fn chpasswd_input(name: &str, password: &str) -> (s: String)
        ensures
            s@ == name@ + seq![':'] + password@ + seq!['\n'],
    {
        let a = concat3(name, ":", password);
        let s = concat2(a.as_str(), "\n");
        proof {
            reveal_strlit(":");
            reveal_strlit("\n");
        }
        assert(s@ =~= name@ + seq![':'] + password@ + seq!['\n']);
        s
    }

    /// The arguments of the `userdel` run, which also removes the home directory.
    pub fn userdel_args(name: &str) -> (a: Vec<String>)
        ensures
            strs(a@) == seq!["-r"@, name@],
    {
        let a = vec!["-r".to_owned(), name.to_owned()];
        assert(strs(a@) =~= seq!["-r"@, name@]);
        a
    }

    /// The answer to a user that was created.
    pub fn created_message(name: &str) -> (s: String)
        ensures
            s@ == "User '"@ + name@ + "' created"@,
    {
        concat3("User '", name, "' created")
    }

    /// The answer to a user that was deleted.
    pub fn deleted_message(name: &str) -> (s: String)
        ensures
            s@ == "User '"@ + name@ + "' deleted"@,
    {
        concat3("User '", name, "' deleted")
    }

    /// The answer to a password that was changed.
    pub fn password_message(name: &str) -> (s: String)
        ensures
            s@ == "Password changed for user '"@ + name@ + "'"@,
    {
        concat3("Password changed for user '", name, "'")
    }
}


/// One more line of `/etc/passwd` with at least six `:`-separated fields, whose third
/// and fourth fields read as `u32`: with that uid 0 or at least 1000 it lists the user
/// named in the first field, with that uid, the fourth field as gid, the fifth as comment
/// and the sixth as home, replacing an earlier user of that name; with a uid from 1 to
/// 999 (a system account) it changes nothing.
pub proof fn law_passwd_line(ls: Seq<Seq<char>>, l: Seq<char>, uid: u32, gid: u32)
    requires
        split_char(l, ':').len() >= 6,
        parse_u32(split_char(l, ':')[2]) == Some(uid),
        parse_u32(split_char(l, ':')[3]) == Some(gid),
    ensures
        ({
            let c = split_char(l, ':');
            (uid == 0 || uid >= 1000) ==> user_table(ls.push(l)) == user_table(ls).insert(
                c[0],
                UserInfoView { uid, gid, comment: c[4], home: c[5] },
            )
        }),
        0 < uid < 1000 ==> user_table(ls.push(l)) == user_table(ls),
{
    let f = |x: Seq<char>| user_row(x);
    assert(ls.push(l).map_values(f) =~= ls.map_values(f).push(user_row(l)));
    lemma_table_push(ls.map_values(f), user_row(l));
}

/// A line with fewer than six fields, or whose third or fourth field is not a `u32`,
/// changes nothing.
pub proof fn law_passwd_line_unread(ls: Seq<Seq<char>>, l: Seq<char>)
    requires
        split_char(l, ':').len() < 6 || parse_u32(split_char(l, ':')[2]) is None || parse_u32(
            split_char(l, ':')[3],
        ) is None,
    ensures
        user_table(ls.push(l)) == user_table(ls),
{
    let f = |x: Seq<char>| user_row(x);
    assert(ls.push(l).map_values(f) =~= ls.map_values(f).push(user_row(l)));
    lemma_table_push(ls.map_values(f), user_row(l));
}

} // verus!
