use vstd::prelude::*;

use crate::models::{sort_label, SortType};
use crate::text::{decimal, push_char, push_decimal, push_text};

verus! {

/// The root of every endpoint of the mod-hosting service.
pub open spec fn base_url() -> Seq<char> {
    "https://addons-ecs.forgesvc.net/api/v2/addon"@
}

/// The search endpoint for one page of `amount` results, sorted by `sort`.
pub open spec fn search_url_text(
    query: Seq<char>,
    game_version: Seq<char>,
    amount: u8,
    sort: SortType,
) -> Seq<char> {
    base_url() + "/search?categoryId=0&gameId=432&gameVersion="@ + game_version
        + "&index=0&pageSize="@ + decimal(amount as nat) + "&searchFilter="@ + query
        + "&sectionId=6&sort="@ + sort_label(sort)
}

/// The summary endpoint of one mod.
pub open spec fn mod_url_text(mod_id: u32) -> Seq<char> {
    base_url() + "/"@ + decimal(mod_id as nat)
}

/// The endpoint of one file of one mod.
pub open spec fn info_url_text(mod_id: u32, file_id: u32) -> Seq<char> {
    base_url() + "/"@ + decimal(mod_id as nat) + "/file/"@ + decimal(file_id as nat)
}

/// A query with every space written as `%20`.
pub open spec fn escaped_query(s: Seq<char>) -> Seq<char>
    decreases s.len(),
{
    if s.len() == 0 {
        Seq::empty()
    } else if s.last() == ' ' {
        escaped_query(s.drop_last()) + seq!['%', '2', '0']
    } else {
        escaped_query(s.drop_last()).push(s.last())
    }
}

/// The address of one page of search results.
pub fn search_url(query: &str, game_version: &str, amount: u8, sort_type: &SortType) -> (r: String)
    ensures
        r@ == search_url_text(query@, game_version@, amount, *sort_type),
{
    let mut r = String::new();
    push_text(&mut r, "https://addons-ecs.forgesvc.net/api/v2/addon");
    push_text(&mut r, "/search?categoryId=0&gameId=432&gameVersion=");
    push_text(&mut r, game_version);
    push_text(&mut r, "&index=0&pageSize=");
    push_decimal(&mut r, amount as u32);
    push_text(&mut r, "&searchFilter=");
    push_text(&mut r, query);
    push_text(&mut r, "&sectionId=6&sort=");
    let sort = sort_type.to_string();
    push_text(&mut r, sort.as_str());
    r
}

/// The address of one mod's summary.
pub fn mod_url(mod_id: u32) -> (r: String)
    ensures
        r@ == mod_url_text(mod_id),
{
    let mut r = String::new();
    push_text(&mut r, "https://addons-ecs.forgesvc.net/api/v2/addon");
    push_text(&mut r, "/");
    push_decimal(&mut r, mod_id);
    r
}

/// The address of the record of one file of one mod.
pub fn info_url(mod_id: u32, file_id: u32) -> (r: String)
    ensures
        r@ == info_url_text(mod_id, file_id),
{
    let mut r = String::new();
    push_text(&mut r, "https://addons-ecs.forgesvc.net/api/v2/addon");
    push_text(&mut r, "/");
    push_decimal(&mut r, mod_id);
    push_text(&mut r, "/file/");
    push_decimal(&mut r, file_id);
    r
}

/// Writes each space of a query as `%20`, so that it can stand in a URL.
pub fn parse_query(src: &str) -> (r: String)
    ensures
        r@ == escaped_query(src@),
{
    let n = src.unicode_len();
    let mut r = String::new();
    let mut i: usize = 0;
    while i < n
        invariant
            n == src@.len(),
            i <= n,
            r@ == escaped_query(src@.take(i as int)),
        decreases n - i,
    {
        let c = src.get_char(i);
        assert(src@.take(i + 1).drop_last() =~= src@.take(i as int));
        if c == ' ' {
            push_char(&mut r, '%');
            push_char(&mut r, '2');
            push_char(&mut r, '0');
            assert(r@ =~= escaped_query(src@.take(i as int)) + seq!['%', '2', '0']);
        } else {
            push_char(&mut r, c);
        }
        i = i + 1;
    }
    assert(src@.take(n as int) =~= src@);
    r
}

} // verus!
