# appflowy_cloud

The logic behind two features of a collaborative workspace server, written in
Verus with its contracts proved:

- the snapshot of a published page (`src/snapshot.rs`): a document page is
  turned into the Slate node tree the web editor renders (`src/slate.rs`,
  with text leaves from `src/delta.rs`), a database page into summaries of its
  fields, views and rows (`src/database.rs`);
- sharing views with guests (`src/sharing.rs`): grants read back and grouped
  by view, and the decisions of the share, revoke and access-details requests.

JSON values are held by the library's own type (`src/json.rs`); delta texts are
parsed by serde_json and UUIDs read and written by the uuid crate, behind the
trusted items of `src/parse.rs` and `src/ids.rs`.

`app/` holds what cannot be verified: the database queries (sqlx), the HTTP
routes (actix-web), the wire forms with serde's derives, and the assembly of a
snapshot from the stored, decoded page.
