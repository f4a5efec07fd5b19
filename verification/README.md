# autarch_readme

The verified core of a program that writes the README of a GitHub profile:
from GitHub's answers about repositories, a blog's RSS feed and last.fm's top
artists, it computes repository counts, bytes of code per language, the most
recent, starred and forked repositories, the recent blog posts and the artist
links that the README shows.

- `src/` is the library, verified with Verus. `github_queries` holds the shapes
  of GitHub's answers as plain data; `convert` turns an organization's
  repositories into a user's; `stats`, `languages` and `repos` collect and rank;
  `pages` decides what each page of an answer does and whether to fetch the
  next; `feed`, `artists` and `activity` handle the blog, last.fm and the issue
  counts; `dates`, `text` and `sorting` are the helpers they share; `laws`
  states what holds across calls.
- `app/` is the program around it: the network requests, the JSON shapes, the
  percentages (floating point) and the rendering of the template.
- `tests/` runs the library on concrete values.
