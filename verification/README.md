# vpm_shop

A self-hosted shop for VPM packages (VRChat Package Manager): it takes uploads of
`.unitypackage`, `.zip` and raw files, builds package files of them, and keeps the
registry that lists them.

The rules of the shop are a Verus library. What each function does is stated in its
contract and proved.

| Module | What it holds |
|--------|---------------|
| `text`, `paths` | texts and file paths, their order, splitting and joining |
| `json`, `codec` | JSON values, and their text by way of `serde_json` |
| `names`, `urls` | package ids, versions, directories, addresses and files |
| `registry` | reading the registry, and the version an upload gets |
| `demotion` | making a stable version a release candidate |
| `edits`, `storage` | changes to the registry, and what they keep |
| `manifest`, `archive`, `digest` | what a package file is made of |
| `request`, `upload` | an upload, from the form to the published package |
| `jobs` | deleting, editing dependencies, renaming the listings |
| `repos`, `config`, `checklist`, `replies` | `repos.conf`, settings, the checklist, answers |

`app/` is the server around the library: HTTP, files, archives and the programs that
validate and generate the listings. It asks the library what to do next, does it, and
reports what came of it.

Settings come from the environment (`VPM_SHOP`, `VALIDATOR`, `MASTER_HOST`, `BIND`,
`API_USER`, `API_PASS`, `PKG_AUTHOR`, `VAULT_HOST`). Without credentials and an address
the shop does not start.
