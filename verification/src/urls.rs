//! Where packages are found: the addresses that the registry publishes, and the
//! files that they stand for.

use vstd::prelude::*;
use vstd::string::*;

use crate::text::{
    after_prefix, before, cat5, lemma_before, strip_prefix, text_before, trim_end_slashes,
    without_end_slashes,
};

verus! {

/// The address of the published listing.
pub open spec fn index_address(host: Seq<char>) -> Seq<char> {
    without_end_slashes(host) + "/index.json"@
}

/// The file name of a package version.
pub open spec fn zip_name(dirname: Seq<char>, version: Seq<char>) -> Seq<char> {
    dirname + "-"@ + version + ".zip"@
}

/// The file of a package version, from the directory that holds the categories on.
pub open spec fn zip_file(category: Seq<char>, dirname: Seq<char>, version: Seq<char>) -> Seq<
    char,
> {
    category + "/"@ + dirname + "/"@ + zip_name(dirname, version)
}

/// The address of a package version.
pub open spec fn zip_address(
    host: Seq<char>,
    category: Seq<char>,
    dirname: Seq<char>,
    version: Seq<char>,
) -> Seq<char> {
    without_end_slashes(host) + "/"@ + zip_file(category, dirname, version)
}

/// The file that an address stands for, from the directory that holds the
/// categories on: the address without its query and without the host, where it
/// starts with the host.
pub open spec fn file_of_address(host: Seq<char>, url: Seq<char>) -> Seq<char> {
    let path = before(url, '?');
    match after_prefix(path, without_end_slashes(host) + "/"@) {
        Some(rest) => rest,
        None => path,
    }
}

/// The address of the published listing.
pub fn index_url(host: &str) -> (r: String)
    ensures
        r@ == index_address(host@),
{
    let mut out = trim_end_slashes(host);
    out.append("/index.json");
    out
}

/// The file name of a package version.
pub fn zip_file_name(dirname: &str, version: &str) -> (r: String)
    ensures
        r@ == zip_name(dirname@, version@),
{
    let mut out = dirname.to_string();
    out.append("-");
    out.append(version);
    out.append(".zip");
    out
}

/// The file of a package version, from the directory that holds the categories on.
pub fn zip_path(category: &str, dirname: &str, version: &str) -> (r: String)
    ensures
        r@ == zip_file(category@, dirname@, version@),
{
    let name = zip_file_name(dirname, version);
    cat5(category, "/", dirname, "/", name.as_str())
}

/// The address of a package version.
pub fn zip_url(host: &str, category: &str, dirname: &str, version: &str) -> (r: String)
    ensures
        r@ == zip_address(host@, category@, dirname@, version@),
{
    let mut out = trim_end_slashes(host);
    out.append("/");
    out.append(category);
    out.append("/");
    out.append(dirname);
    out.append("/");
    let file = zip_file_name(dirname, version);
    out.append(file.as_str());
    assert(out@ =~= zip_address(host@, category@, dirname@, version@));
    out
}

/// The file that an address stands for.
pub fn url_path(host: &str, url: &str) -> (r: String)
    ensures
        r@ == file_of_address(host@, url@),
{
    let path = text_before(url, '?');
    let mut master = trim_end_slashes(host);
    master.append("/");
    match strip_prefix(path.as_str(), master.as_str()) {
        Some(rest) => rest,
        None => path,
    }
}

/// The address of a package version stands for the file of that version. An
/// address with a question mark would be cut off there.
pub proof fn law_address_names_the_file(
    host: Seq<char>,
    category: Seq<char>,
    dirname: Seq<char>,
    version: Seq<char>,
)
    requires
        !zip_address(host, category, dirname, version).contains('?'),
    ensures
        file_of_address(host, zip_address(host, category, dirname, version)) == zip_file(
            category,
            dirname,
            version,
        ),
{
    let url = zip_address(host, category, dirname, version);
    let prefix = without_end_slashes(host) + "/"@;
    let file = zip_file(category, dirname, version);
    lemma_before(url, '?', url.len() as int);
    assert(url.take(url.len() as int) =~= url);
    assert(url =~= prefix + file);
    assert(url.subrange(0, prefix.len() as int) =~= prefix);
    assert(url.skip(prefix.len() as int) =~= file);
}

/// What follows a question mark in an address does not change the file that the address
/// stands for, and the slashes at the end of the host do not either.
pub proof fn law_queries_are_cut_off(host: Seq<char>, url: Seq<char>, query: Seq<char>)
    requires
        !url.contains('?'),
    ensures
        file_of_address(host, url + "?"@ + query) == file_of_address(host, url),
        file_of_address(host + "/"@, url) == file_of_address(host, url),
{
    reveal_strlit("?");
    reveal_strlit("/");
    let long = url + "?"@ + query;
    lemma_before(url, '?', url.len() as int);
    assert(url.take(url.len() as int) =~= url);
    assert forall|k: int| 0 <= k < url.len() implies long[k] != '?' by {
        assert(long[k] == url[k]);
        assert(url.contains(url[k]));
    }
    assert(long[url.len() as int] == '?');
    lemma_before(long, '?', url.len() as int);
    assert(long.take(url.len() as int) =~= url);
    assert((host + "/"@).drop_last() =~= host);
}

/// An address of the shop leads to what stands behind the host and a slash; an address
/// elsewhere is taken as it is.
pub proof fn law_addresses_lead_below_the_host(host: Seq<char>, rest: Seq<char>, url: Seq<char>)
    requires
        !(without_end_slashes(host) + "/"@ + rest).contains('?'),
        !url.contains('?'),
        !(without_end_slashes(host) + "/"@).is_prefix_of(url),
    ensures
        file_of_address(host, without_end_slashes(host) + "/"@ + rest) == rest,
        file_of_address(host, url) == url,
{
    let prefix = without_end_slashes(host) + "/"@;
    let inside = prefix + rest;
    lemma_before(inside, '?', inside.len() as int);
    assert(inside.take(inside.len() as int) =~= inside);
    assert(inside.subrange(0, prefix.len() as int) =~= prefix);
    assert(inside.skip(prefix.len() as int) =~= rest);
    lemma_before(url, '?', url.len() as int);
    assert(url.take(url.len() as int) =~= url);
}

} // verus!
