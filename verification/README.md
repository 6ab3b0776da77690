# project_folder_manager

A desktop manager for project folders: it keeps a list of projects, scans a
project's folder into a file tree with size statistics per file category,
searches file names, previews files, and can search the disks for folders
that look like projects.

Layout:

- `src/` is the library, written and proved with Verus. It holds the
  decisions of the program: the file tree and its statistics (`tree`,
  `scan`), the file categories (`category`), recognising projects
  (`discover`) and the disk search as a state machine (`discovery`), the
  state of the window and what each action does to it (`app_state`), the
  preview rules (`preview`), syntax highlighting of code previews
  (`highlight`), and the texts and orders that the panels show (`ui`).
- `app/` is the program around it: the egui window, threads, file-system
  access, the JSON configuration and the image work.
- `tests/` exercises the library on concrete values.
