//! What the kernel downloads from the module registry (port 8888 on the
//! host, 10.0.2.2) at boot, and how the downloads become routes.
//!
//! A module `<name>.wasm` serves route `/<name>`, and `app.wasm` serves
//! `/`; each static page is served at its route with its content type.

use vstd::prelude::*;
use vstd::string::StringSliceAdditionalSpecFns;
use crate::text::append_bytes;

verus! {

pub const REGISTRY_PORT: u16 = 8888;

/// The registry's address.
pub fn registry_ip() -> (r: [u8; 4])
    ensures
        r == [10u8, 0, 2, 2],
{
    [10u8, 0, 2, 2]
}

pub open spec fn pairs_view(v: Seq<(Vec<u8>, Vec<u8>)>) -> Seq<(Seq<u8>, Seq<u8>)> {
    v.map_values(|p: (Vec<u8>, Vec<u8>)| (p.0@, p.1@))
}

pub open spec fn triples_view(v: Seq<(Vec<u8>, Vec<u8>, Vec<u8>)>) -> Seq<(Seq<u8>, Seq<u8>, Seq<u8>)> {
    v.map_values(|p: (Vec<u8>, Vec<u8>, Vec<u8>)| (p.0@, p.1@, p.2@))
}

/// The modules: registry path and route.
pub open spec fn wasm_table() -> Seq<(Seq<u8>, Seq<u8>)> {
    seq![
        ("/app.wasm".spec_bytes(), "/".spec_bytes()),
        ("/bbs.wasm".spec_bytes(), "/bbs".spec_bytes()),
        ("/editor.wasm".spec_bytes(), "/editor".spec_bytes()),
    ]
}

/// The static pages: registry path, route and content type.
pub open spec fn static_table() -> Seq<(Seq<u8>, Seq<u8>, Seq<u8>)> {
    seq![
        ("/eq.html".spec_bytes(), "/".spec_bytes(), "text/html; charset=utf-8".spec_bytes()),
        ("/bbs.html".spec_bytes(), "/bbs".spec_bytes(), "text/html; charset=utf-8".spec_bytes()),
        ("/editor.html".spec_bytes(), "/editor".spec_bytes(), "text/html; charset=utf-8".spec_bytes()),
    ]
}

fn bytes_of(s: &str) -> (r: Vec<u8>)
    ensures
        r@ == s.spec_bytes(),
{
    let mut r: Vec<u8> = Vec::new();
    append_bytes(&mut r, s.as_bytes());
    r
}

/// The modules to download, in order.
pub fn wasm_entries() -> (r: Vec<(Vec<u8>, Vec<u8>)>)
    ensures
        pairs_view(r@) == wasm_table(),
{
    let mut r: Vec<(Vec<u8>, Vec<u8>)> = Vec::new();
    r.push((bytes_of("/app.wasm"), bytes_of("/")));
    r.push((bytes_of("/bbs.wasm"), bytes_of("/bbs")));
    r.push((bytes_of("/editor.wasm"), bytes_of("/editor")));
    assert(pairs_view(r@) =~= wasm_table());
    r
}

/// The static pages to download, in order.
pub fn static_entries() -> (r: Vec<(Vec<u8>, Vec<u8>, Vec<u8>)>)
    ensures
        triples_view(r@) == static_table(),
{
    let mut r: Vec<(Vec<u8>, Vec<u8>, Vec<u8>)> = Vec::new();
    r.push((bytes_of("/eq.html"), bytes_of("/"), bytes_of("text/html; charset=utf-8")));
    r.push((bytes_of("/bbs.html"), bytes_of("/bbs"), bytes_of("text/html; charset=utf-8")));
    r.push(
        (bytes_of("/editor.html"), bytes_of("/editor"), bytes_of("text/html; charset=utf-8")),
    );
    assert(triples_view(r@) =~= static_table());
    r
}

pub open spec fn fetched_view(v: Seq<Option<Vec<u8>>>) -> Seq<Option<Seq<u8>>> {
    v.map_values(
        |o: Option<Vec<u8>>|
            match o {
                Some(b) => Some(b@),
                None => None,
            },
    )
}

/// The routes among the first `n` modules whose download gave something:
/// (route, module), in order.
pub open spec fn gathered_routes(
    entries: Seq<(Seq<u8>, Seq<u8>)>,
    fetched: Seq<Option<Seq<u8>>>,
    n: int,
) -> Seq<(Seq<u8>, Seq<u8>)>
    decreases n,
{
    if n <= 0 {
        Seq::empty()
    } else {
        let rest = gathered_routes(entries, fetched, n - 1);
        match fetched[n - 1] {
            Some(b) => rest.push((entries[n - 1].1, b)),
            None => rest,
        }
    }
}

/// The static files among the first `n` pages whose download gave
/// something: (route, content, content type), in order.
pub open spec fn gathered_files(
    entries: Seq<(Seq<u8>, Seq<u8>, Seq<u8>)>,
    fetched: Seq<Option<Seq<u8>>>,
    n: int,
) -> Seq<(Seq<u8>, Seq<u8>, Seq<u8>)>
    decreases n,
{
    if n <= 0 {
        Seq::empty()
    } else {
        let rest = gathered_files(entries, fetched, n - 1);
        match fetched[n - 1] {
            Some(b) => rest.push((entries[n - 1].1, b, entries[n - 1].2)),
            None => rest,
        }
    }
}

fn copy_bytes(b: &Vec<u8>) -> (r: Vec<u8>)
    ensures
        r@ == b@,
{
    let mut r: Vec<u8> = Vec::new();
    append_bytes(&mut r, b.as_slice());
    r
}

/// Pairs each module that came with its route; those that did not come
/// are skipped.
pub fn gather_routes(entries: &[(Vec<u8>, Vec<u8>)], fetched: &[Option<Vec<u8>>]) -> (r: Vec<(Vec<u8>, Vec<u8>)>)
    requires
        fetched@.len() == entries@.len(),
    ensures
        pairs_view(r@) == gathered_routes(
            pairs_view(entries@),
            fetched_view(fetched@),
            entries@.len() as int,
        ),
{
    let mut r: Vec<(Vec<u8>, Vec<u8>)> = Vec::new();
    let mut i: usize = 0;
    while i < entries.len()
        invariant
            i <= entries@.len(),
            fetched@.len() == entries@.len(),
            pairs_view(r@) == gathered_routes(pairs_view(entries@), fetched_view(fetched@), i as int),
        decreases entries@.len() - i,
    {
        match &fetched[i] {
            Some(b) => {
                let route = copy_bytes(&entries[i].1);
                let module = copy_bytes(b);
                r.push((route, module));
                assert(pairs_view(r@) =~= gathered_routes(
                    pairs_view(entries@),
                    fetched_view(fetched@),
                    i + 1,
                ));
            },
            None => {
                assert(pairs_view(r@) =~= gathered_routes(
                    pairs_view(entries@),
                    fetched_view(fetched@),
                    i + 1,
                ));
            },
        }
        i = i + 1;
    }
    r
}

/// Pairs each static page that came with its route and content type;
/// those that did not come are skipped.
pub fn gather_files(entries: &[(Vec<u8>, Vec<u8>, Vec<u8>)], fetched: &[Option<Vec<u8>>]) -> (r: Vec<(Vec<u8>, Vec<u8>, Vec<u8>)>)
    requires
        fetched@.len() == entries@.len(),
    ensures
        triples_view(r@) == gathered_files(
            triples_view(entries@),
            fetched_view(fetched@),
            entries@.len() as int,
        ),
{
    let mut r: Vec<(Vec<u8>, Vec<u8>, Vec<u8>)> = Vec::new();
    let mut i: usize = 0;
    while i < entries.len()
        invariant
            i <= entries@.len(),
            fetched@.len() == entries@.len(),
            triples_view(r@) == gathered_files(triples_view(entries@), fetched_view(fetched@), i as int),
        decreases entries@.len() - i,
    {
        match &fetched[i] {
            Some(b) => {
                let route = copy_bytes(&entries[i].1);
                let content = copy_bytes(b);
                let ctype = copy_bytes(&entries[i].2);
                r.push((route, content, ctype));
                assert(triples_view(r@) =~= gathered_files(
                    triples_view(entries@),
                    fetched_view(fetched@),
                    i + 1,
                ));
            },
            None => {
                assert(triples_view(r@) =~= gathered_files(
                    triples_view(entries@),
                    fetched_view(fetched@),
                    i + 1,
                ));
            },
        }
        i = i + 1;
    }
    r
}

/// How many of the first `n` downloads gave something.
pub open spec fn fetched_count(fetched: Seq<Option<Seq<u8>>>, n: int) -> int
    decreases n,
{
    if n <= 0 {
        0
    } else {
        fetched_count(fetched, n - 1) + if fetched[n - 1] is Some {
            1int
        } else {
            0int
        }
    }
}

proof fn lemma_fetched_count_nonneg(fetched: Seq<Option<Seq<u8>>>, n: int)
    ensures
        fetched_count(fetched, n) >= 0,
    decreases n,
{
    if n > 0 {
        lemma_fetched_count_nonneg(fetched, n - 1);
    }
}

proof fn lemma_fetched_count_grows(fetched: Seq<Option<Seq<u8>>>, i: int, j: int)
    requires
        0 <= i < j,
        fetched[i] is Some,
    ensures
        fetched_count(fetched, i) + 1 <= fetched_count(fetched, j),
    decreases j - i,
{
    if j > i + 1 {
        lemma_fetched_count_grows(fetched, i, j - 1);
    }
}

/// Every static page whose download gave bytes is served, and nothing
/// else: the gathered list has one item per page that came, and the page
/// that came as the `c`-th (counting from 0, in table order) is item `c`,
/// with its route, the bytes downloaded and its content type.
pub proof fn lemma_gathered_files_complete(
    entries: Seq<(Seq<u8>, Seq<u8>, Seq<u8>)>,
    fetched: Seq<Option<Seq<u8>>>,
    n: int,
)
    requires
        0 <= n,
    ensures
        gathered_files(entries, fetched, n).len() == fetched_count(fetched, n),
        forall|i: int|
            0 <= i < n && #[trigger] fetched[i] is Some ==> gathered_files(entries, fetched, n)[fetched_count(
                fetched,
                i,
            )] == (entries[i].1, fetched[i].unwrap(), entries[i].2),
    decreases n,
{
    if n > 0 {
        lemma_gathered_files_complete(entries, fetched, n - 1);
        assert forall|i: int|
            0 <= i < n && #[trigger] fetched[i] is Some implies gathered_files(entries, fetched, n)[fetched_count(
                fetched,
                i,
            )] == (entries[i].1, fetched[i].unwrap(), entries[i].2) by {
            let rest = gathered_files(entries, fetched, n - 1);
            if i < n - 1 {
                lemma_fetched_count_grows(fetched, i, n - 1);
                lemma_fetched_count_nonneg(fetched, i);
                assert(rest[fetched_count(fetched, i)] == (entries[i].1, fetched[i].unwrap(), entries[i].2));
                assert(gathered_files(entries, fetched, n)[fetched_count(fetched, i)] == rest[fetched_count(fetched, i)]);
            } else {
                assert(fetched_count(fetched, i) == rest.len());
            }
        }
    }
}

/// Every module whose download gave bytes gets its route, and nothing
/// else: the gathered list has one item per module that came, and the
/// module that came as the `c`-th (in table order) is item `c`, with its
/// route and the bytes downloaded.
pub proof fn lemma_gathered_routes_complete(
    entries: Seq<(Seq<u8>, Seq<u8>)>,
    fetched: Seq<Option<Seq<u8>>>,
    n: int,
)
    requires
        0 <= n,
    ensures
        gathered_routes(entries, fetched, n).len() == fetched_count(fetched, n),
        forall|i: int|
            0 <= i < n && #[trigger] fetched[i] is Some ==> gathered_routes(entries, fetched, n)[fetched_count(
                fetched,
                i,
            )] == (entries[i].1, fetched[i].unwrap()),
    decreases n,
{
    if n > 0 {
        lemma_gathered_routes_complete(entries, fetched, n - 1);
        assert forall|i: int|
            0 <= i < n && #[trigger] fetched[i] is Some implies gathered_routes(entries, fetched, n)[fetched_count(
                fetched,
                i,
            )] == (entries[i].1, fetched[i].unwrap()) by {
            let rest = gathered_routes(entries, fetched, n - 1);
            if i < n - 1 {
                lemma_fetched_count_grows(fetched, i, n - 1);
                lemma_fetched_count_nonneg(fetched, i);
                assert(rest[fetched_count(fetched, i)] == (entries[i].1, fetched[i].unwrap()));
                assert(gathered_routes(entries, fetched, n)[fetched_count(fetched, i)] == rest[fetched_count(fetched, i)]);
            } else {
                assert(fetched_count(fetched, i) == rest.len());
            }
        }
    }
}

} // verus!
