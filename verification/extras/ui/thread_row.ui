<?xml version="1.0" encoding="UTF-8"?>
<interface>
  <requires lib="gtk" version="4.10"/>
  <object class="GtkListBoxRow" id="row">
    <property name="selectable">false</property>
    <property name="activatable">false</property>
    <style><class name="thread-row"/></style>
    <child>
      <object class="GtkBox" id="inner">
        <property name="spacing">4</property>
        <property name="hexpand">true</property>
        <style><class name="thread-row-content"/></style>
        <child><object class="GtkImage" id="fork">
          <property name="icon-name">fork-right-symbolic</property>
          <property name="pixel-size">11</property>
          <style><class name="thread-fork-icon"/><class name="thread-leading-icon"/></style>
        </object></child>
        <child><object class="GtkImage" id="worktree">
          <property name="icon-name">git-symbolic</property>
          <property name="pixel-size">11</property>
          <style><class name="thread-worktree-icon"/><class name="thread-leading-icon"/></style>
        </object></child>
        <child><object class="GtkImage" id="lock">
          <property name="icon-name">padlock-closed-symbolic</property>
          <property name="pixel-size">11</property>
          <style><class name="thread-lock-icon"/><class name="thread-leading-icon"/></style>
        </object></child>
        <child><object class="GtkImage" id="completion">
          <property name="icon-name">bell-symbolic</property>
          <property name="pixel-size">11</property>
          <property name="visible">false</property>
          <style><class name="thread-complete-icon"/></style>
        </object></child>
        <child>
          <object class="GtkRevealer" id="backend_revealer">
            <property name="transition-type">slide-right</property>
            <property name="transition-duration">150</property>
            <property name="reveal-child">false</property>
            <style><class name="thread-backend-revealer"/><class name="thread-leading-icon"/></style>
            <child><object class="GtkImage" id="backend">
              <property name="pixel-size">11</property>
              <style><class name="thread-backend-icon"/></style>
            </object></child>
          </object>
        </child>
        <child><object class="GtkImage" id="profile">
          <property name="pixel-size">11</property>
          <style><class name="thread-profile-icon"/><class name="thread-leading-icon"/></style>
        </object></child>
        <child><object class="GtkLabel" id="title">
          <property name="xalign">0</property>
          <property name="hexpand">true</property>
          <property name="width-chars">1</property>
          <property name="max-width-chars">30</property>
          <property name="ellipsize">end</property>
          <style><class name="thread-title"/></style>
        </object></child>
        <child><object class="GtkLabel" id="time">
          <property name="halign">end</property>
          <style><class name="thread-time"/></style>
        </object></child>
      </object>
    </child>
  </object>
</interface>
